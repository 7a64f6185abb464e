//! Axis parts: the axis line and the ticks along it, with the
//! orientation-dependent offsets a renderer applies for each of the four
//! axis positions.

use vstd::prelude::*;
use crate::axis::AxisPosition;
use crate::rational::{Rat, Ratio};

verus! {

/// The straight line of an axis, from `(x1, y1)` to `(x2, y2)`.
pub struct AxisLine {
    x1: Rat,
    y1: Rat,
    x2: Rat,
    y2: Rat,
}

impl AxisLine {
    pub closed spec fn x1_val(&self) -> Ratio {
        self.x1@
    }

    pub closed spec fn y1_val(&self) -> Ratio {
        self.y1@
    }

    pub closed spec fn x2_val(&self) -> Ratio {
        self.x2@
    }

    pub closed spec fn y2_val(&self) -> Ratio {
        self.y2@
    }

    pub fn new(x1: Rat, y1: Rat, x2: Rat, y2: Rat) -> (l: AxisLine)
        ensures
            l.x1_val() == x1@,
            l.y1_val() == y1@,
            l.x2_val() == x2@,
            l.y2_val() == y2@,
    {
        AxisLine { x1, y1, x2, y2 }
    }

    pub fn x1(&self) -> (r: Rat)
        ensures
            r@ == self.x1_val(),
    {
        self.x1
    }

    pub fn y1(&self) -> (r: Rat)
        ensures
            r@ == self.y1_val(),
    {
        self.y1
    }

    pub fn x2(&self) -> (r: Rat)
        ensures
            r@ == self.x2_val(),
    {
        self.x2
    }

    pub fn y2(&self) -> (r: Rat)
        ensures
            r@ == self.y2_val(),
    {
        self.y2
    }
}

/// What a tick shows: the category it stands for, or the numeric value.
/// Turning the value into display text is the renderer's business.
pub enum TickLabel {
    Text(String),
    Number(Rat),
}

impl TickLabel {
    /// The numeric value of a number label (zero for a text label).
    pub open spec fn num_val(&self) -> Ratio {
        match self {
            TickLabel::Number(r) => r@,
            TickLabel::Text(_) => Ratio { n: 0, d: 1 },
        }
    }
}

/// One tick of an axis: its pixel offset along the axis, its label and
/// the label's placement parameters.
pub struct AxisTick {
    axis_position: AxisPosition,
    label_offset: usize,
    label_rotation: i64,
    tick_offset: Rat,
    label: TickLabel,
    label_format: Option<String>,
}

impl AxisTick {
    pub closed spec fn offset_val(&self) -> Ratio {
        self.tick_offset@
    }

    pub closed spec fn position_val(&self) -> AxisPosition {
        self.axis_position
    }

    pub closed spec fn label_view(&self) -> TickLabel {
        self.label
    }

    pub closed spec fn rotation_val(&self) -> int {
        self.label_rotation as int
    }

    pub closed spec fn label_offset_val(&self) -> int {
        self.label_offset as int
    }

    pub closed spec fn format_view(&self) -> Option<String> {
        self.label_format
    }

    pub fn new(
        tick_offset: Rat,
        label_offset: usize,
        label_rotation: i64,
        label: TickLabel,
        axis_position: AxisPosition,
    ) -> (t: AxisTick)
        ensures
            t.offset_val() == tick_offset@,
            t.label_offset_val() == label_offset as int,
            t.rotation_val() == label_rotation as int,
            t.label_view() == label,
            t.position_val() == axis_position,
            t.format_view() is None,
    {
        AxisTick {
            axis_position,
            label_offset,
            label_rotation,
            tick_offset,
            label,
            label_format: None,
        }
    }

    /// Set the rotation, in degrees, of the tick's label.
    pub fn set_label_rotation(&mut self, rotation: i64)
        ensures
            final(self).rotation_val() == rotation as int,
            final(self).offset_val() == old(self).offset_val(),
            final(self).position_val() == old(self).position_val(),
            final(self).label_view() == old(self).label_view(),
            final(self).label_offset_val() == old(self).label_offset_val(),
            final(self).format_view() == old(self).format_view(),
    {
        self.label_rotation = rotation;
    }

    /// Set the numeric format pattern applied to the label's text when
    /// the tick is rendered. It never changes the numeric value.
    pub fn set_label_format(&mut self, format: &str)
        ensures
            final(self).format_view() matches Some(f) && f@ == format@,
            final(self).offset_val() == old(self).offset_val(),
            final(self).position_val() == old(self).position_val(),
            final(self).label_view() == old(self).label_view(),
            final(self).label_offset_val() == old(self).label_offset_val(),
            final(self).rotation_val() == old(self).rotation_val(),
    {
        self.label_format = Some(format.to_owned());
    }

    pub fn tick_offset(&self) -> (r: Rat)
        ensures
            r@ == self.offset_val(),
    {
        self.tick_offset
    }

    pub fn label(&self) -> (r: &TickLabel)
        ensures
            *r == self.label_view(),
    {
        &self.label
    }

    pub fn label_format(&self) -> (r: &Option<String>)
        ensures
            *r == self.format_view(),
    {
        &self.label_format
    }

    pub fn label_rotation(&self) -> (r: i64)
        ensures
            r as int == self.rotation_val(),
    {
        self.label_rotation
    }

    pub fn axis_position(&self) -> (r: AxisPosition)
        ensures
            r == self.position_val(),
    {
        self.axis_position
    }

    /// Where the tick's little line ends, relative to the tick: pointing
    /// away from the chart for each of the four axis positions.
    pub fn tick_line_end(&self) -> (r: (i64, i64))
        ensures
            self.position_val() == AxisPosition::Left ==> r == (-6i64, 0i64),
            self.position_val() == AxisPosition::Bottom ==> r == (0i64, 6i64),
            self.position_val() == AxisPosition::Right ==> r == (6i64, 0i64),
            self.position_val() == AxisPosition::Top ==> r == (0i64, -6i64),
    {
        match self.axis_position {
            AxisPosition::Left => (-6, 0),
            AxisPosition::Bottom => (0, 6),
            AxisPosition::Right => (6, 0),
            AxisPosition::Top => (0, -6),
        }
    }

    /// Where the label sits relative to the tick, mirroring the axis
    /// side.
    pub fn label_position_offset(&self) -> (r: (i64, i64))
        requires
            self.label_offset_val() <= 0x1000,
        ensures
            self.position_val() == AxisPosition::Left ==> r.0 as int == -self.label_offset_val()
                && r.1 == 0,
            self.position_val() == AxisPosition::Bottom ==> r.0 == 0 && r.1 as int
                == self.label_offset_val(),
            self.position_val() == AxisPosition::Right ==> r.0 as int == self.label_offset_val()
                && r.1 == 0,
            self.position_val() == AxisPosition::Top ==> r.0 == 0 && r.1 as int
                == -self.label_offset_val(),
    {
        let off = self.label_offset as i64;
        match self.axis_position {
            AxisPosition::Left => (-off, 0),
            AxisPosition::Bottom => (0, off),
            AxisPosition::Right => (off, 0),
            AxisPosition::Top => (0, -off),
        }
    }

    /// The text anchor of the label: labels left of a left axis end at
    /// the tick, labels right of a right axis start at it, and labels
    /// above or below are centered.
    pub fn label_text_anchor(&self) -> (r: String)
        ensures
            self.position_val() == AxisPosition::Left ==> r@ == "end"@,
            self.position_val() == AxisPosition::Bottom ==> r@ == "middle"@,
            self.position_val() == AxisPosition::Right ==> r@ == "start"@,
            self.position_val() == AxisPosition::Top ==> r@ == "middle"@,
    {
        match self.axis_position {
            AxisPosition::Left => "end".to_owned(),
            AxisPosition::Bottom => "middle".to_owned(),
            AxisPosition::Right => "start".to_owned(),
            AxisPosition::Top => "middle".to_owned(),
        }
    }
}

} // verus!
