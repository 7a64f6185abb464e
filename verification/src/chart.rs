//! Chart composition: the margins, the view area the margins leave, the
//! four optional axes, and where a legend goes. The chart holds no
//! markup; a renderer reads its geometry.

use vstd::prelude::*;
use crate::axis::{Axis, AxisPosition};
use crate::scales::{AnyScale, ScaleError};

verus! {

/// The orientation of a view's geometry.
#[derive(Copy, Clone, Debug, PartialEq, Eq, Structural)]
pub enum Orientation {
    Horizontal,
    Vertical,
}

/// Failure when composing a chart.
#[derive(Copy, Clone, Debug, PartialEq, Eq, Structural)]
pub enum ChartError {
    /// A label was given for an axis that was never added.
    AxisMissing,
    /// A scale could not produce the axis ticks.
    Scale(ScaleError),
}

/// A chart: sizes, margins, axes and the legend position.
pub struct Chart {
    margin_top: isize,
    margin_bottom: isize,
    margin_right: isize,
    margin_left: isize,
    width: isize,
    height: isize,
    x_axis_top: Option<Axis>,
    x_axis_bottom: Option<Axis>,
    y_axis_left: Option<Axis>,
    y_axis_right: Option<Axis>,
    legend_position: Option<AxisPosition>,
    title: String,
}

impl Chart {
    pub closed spec fn width_val(&self) -> int {
        self.width as int
    }

    pub closed spec fn height_val(&self) -> int {
        self.height as int
    }

    pub closed spec fn margins(&self) -> (int, int, int, int) {
        (
            self.margin_top as int,
            self.margin_right as int,
            self.margin_bottom as int,
            self.margin_left as int,
        )
    }

    pub closed spec fn title_val(&self) -> Seq<char> {
        self.title@
    }

    pub closed spec fn top_axis(&self) -> Option<Axis> {
        self.x_axis_top
    }

    pub closed spec fn bottom_axis(&self) -> Option<Axis> {
        self.x_axis_bottom
    }

    pub closed spec fn left_axis(&self) -> Option<Axis> {
        self.y_axis_left
    }

    pub closed spec fn right_axis(&self) -> Option<Axis> {
        self.y_axis_right
    }

    pub closed spec fn legend_pos(&self) -> Option<AxisPosition> {
        self.legend_position
    }

    /// Sizes stay small enough for all placement arithmetic.
    pub closed spec fn wf(&self) -> bool {
        &&& 0 <= self.width_val() <= 0x4000_0000
        &&& 0 <= self.height_val() <= 0x4000_0000
        &&& 0 <= self.margins().0 <= 0x4000_0000
        &&& 0 <= self.margins().1 <= 0x4000_0000
        &&& 0 <= self.margins().2 <= 0x4000_0000
        &&& 0 <= self.margins().3 <= 0x4000_0000
    }

    /// A chart with the default size (800 by 600) and margins.
    pub fn new() -> (c: Chart)
        ensures
            c.wf(),
            c.width_val() == 800,
            c.height_val() == 600,
            c.margins() == (90int, 40int, 50int, 60int),
            c.top_axis() is None && c.bottom_axis() is None && c.left_axis() is None
                && c.right_axis() is None,
            c.legend_pos() is None,
            c.title_val() == Seq::<char>::empty(),
    {
        Chart {
            margin_top: 90,
            margin_bottom: 50,
            margin_right: 40,
            margin_left: 60,
            width: 800,
            height: 600,
            x_axis_top: None,
            x_axis_bottom: None,
            y_axis_left: None,
            y_axis_right: None,
            legend_position: None,
            title: String::new(),
        }
    }

    /// Set chart width.
    pub fn set_width(self, width: isize) -> (c: Chart)
        requires
            self.wf(),
            0 <= width <= 0x4000_0000,
        ensures
            c.wf(),
            c.width_val() == width as int,
            c.height_val() == self.height_val(),
            c.margins() == self.margins(),
    {
        let mut me = self;
        me.width = width;
        me
    }

    /// Set chart height.
    pub fn set_height(self, height: isize) -> (c: Chart)
        requires
            self.wf(),
            0 <= height <= 0x4000_0000,
        ensures
            c.wf(),
            c.height_val() == height as int,
            c.width_val() == self.width_val(),
            c.margins() == self.margins(),
    {
        let mut me = self;
        me.height = height;
        me
    }

    /// Add chart title.
    pub fn add_title(self, title: String) -> (c: Chart)
        requires
            self.wf(),
        ensures
            c.wf(),
            c.title_val() == title@,
            c.width_val() == self.width_val(),
            c.height_val() == self.height_val(),
            c.margins() == self.margins(),
    {
        let mut me = self;
        me.title = title;
        me
    }

    /// Set the margins of the chart to provided values.
    pub fn set_margins(self, top: isize, right: isize, bottom: isize, left: isize) -> (c: Chart)
        requires
            self.wf(),
            0 <= top <= 0x4000_0000,
            0 <= right <= 0x4000_0000,
            0 <= bottom <= 0x4000_0000,
            0 <= left <= 0x4000_0000,
        ensures
            c.wf(),
            c.margins() == (top as int, right as int, bottom as int, left as int),
            c.width_val() == self.width_val(),
            c.height_val() == self.height_val(),
    {
        let mut me = self;
        me.margin_top = top;
        me.margin_right = right;
        me.margin_bottom = bottom;
        me.margin_left = left;
        me
    }

    /// The offset from the left where the view starts.
    pub fn get_view_horizontal_start_offset(&self) -> (r: isize)
        requires
            self.wf(),
        ensures
            r as int == self.margins().3,
    {
        self.margin_left
    }

    /// The offset from the left where the view ends.
    pub fn get_view_horizontal_end_offset(&self) -> (r: isize)
        requires
            self.wf(),
        ensures
            r as int == self.width_val() - self.margins().1,
    {
        self.width - self.margin_right
    }

    /// The offset from the top where the view starts.
    pub fn get_view_vertical_start_offset(&self) -> (r: isize)
        requires
            self.wf(),
        ensures
            r as int == self.margins().0,
    {
        self.margin_top
    }

    /// The offset from the top where the view ends.
    pub fn get_view_vertical_end_offset(&self) -> (r: isize)
        requires
            self.wf(),
        ensures
            r as int == self.height_val() - self.margins().2,
    {
        self.height - self.margin_bottom
    }

    /// The width of the view: the chart width minus both horizontal
    /// margins.
    pub fn get_view_width(&self) -> (r: isize)
        requires
            self.wf(),
        ensures
            r as int == self.width_val() - self.margins().3 - self.margins().1,
    {
        self.width - self.margin_left - self.margin_right
    }

    /// The width of the chart.
    pub fn get_chart_width(&self) -> (r: isize)
        requires
            self.wf(),
        ensures
            r as int == self.width_val(),
    {
        self.width
    }

    /// The height of the chart.
    pub fn get_chart_height(&self) -> (r: isize)
        requires
            self.wf(),
        ensures
            r as int == self.height_val(),
    {
        self.height
    }

    /// The height of the view: the chart height minus both vertical
    /// margins.
    pub fn get_view_height(&self) -> (r: isize)
        requires
            self.wf(),
        ensures
            r as int == self.height_val() - self.margins().0 - self.margins().2,
    {
        self.height - self.margin_top - self.margin_bottom
    }

    /// Add an axis at the bottom of the chart, derived from the scale.
    pub fn add_axis_bottom(self, scale: &AnyScale) -> (r: Result<Chart, ChartError>)
        requires
            self.wf(),
            crate::axis::scale_wf(*scale),
            self.width_val() - self.margins().3 - self.margins().1 >= 0,
            self.height_val() - self.margins().0 - self.margins().2 >= 0,
        ensures
            r matches Ok(c) ==> c.wf() && (c.bottom_axis() matches Some(a) && a.ticks_ok_for(*scale)
                && a.position_val() == AxisPosition::Bottom) && c.width_val() == self.width_val()
                && c.height_val() == self.height_val() && c.margins() == self.margins(),
            r is Ok <==> crate::axis::axis_scale_ok(*scale),
            r matches Err(e) ==> e matches ChartError::Scale(_),
    {
        let w = self.get_view_width();
        let h = self.get_view_height();
        let axis = match Axis::new_bottom_axis(scale, w, h) {
            Ok(a) => a,
            Err(e) => {
                return Err(ChartError::Scale(e));
            },
        };
        let mut me = self;
        me.x_axis_bottom = Some(axis);
        Ok(me)
    }

    /// Add an axis at the left of the chart, derived from the scale.
    pub fn add_axis_left(self, scale: &AnyScale) -> (r: Result<Chart, ChartError>)
        requires
            self.wf(),
            crate::axis::scale_wf(*scale),
            self.width_val() - self.margins().3 - self.margins().1 >= 0,
            self.height_val() - self.margins().0 - self.margins().2 >= 0,
        ensures
            r matches Ok(c) ==> c.wf() && (c.left_axis() matches Some(a) && a.ticks_ok_for(*scale)
                && a.position_val() == AxisPosition::Left) && c.width_val() == self.width_val()
                && c.height_val() == self.height_val() && c.margins() == self.margins(),
            r is Ok <==> crate::axis::axis_scale_ok(*scale),
            r matches Err(e) ==> e matches ChartError::Scale(_),
    {
        let w = self.get_view_width();
        let h = self.get_view_height();
        let axis = match Axis::new_left_axis(scale, w, h) {
            Ok(a) => a,
            Err(e) => {
                return Err(ChartError::Scale(e));
            },
        };
        let mut me = self;
        me.y_axis_left = Some(axis);
        Ok(me)
    }

    /// Add an axis at the top of the chart, derived from the scale.
    pub fn add_axis_top(self, scale: &AnyScale) -> (r: Result<Chart, ChartError>)
        requires
            self.wf(),
            crate::axis::scale_wf(*scale),
            self.width_val() - self.margins().3 - self.margins().1 >= 0,
            self.height_val() - self.margins().0 - self.margins().2 >= 0,
        ensures
            r matches Ok(c) ==> c.wf() && (c.top_axis() matches Some(a) && a.ticks_ok_for(*scale)
                && a.position_val() == AxisPosition::Top) && c.width_val() == self.width_val()
                && c.height_val() == self.height_val() && c.margins() == self.margins(),
            r is Ok <==> crate::axis::axis_scale_ok(*scale),
            r matches Err(e) ==> e matches ChartError::Scale(_),
    {
        let w = self.get_view_width();
        let h = self.get_view_height();
        let axis = match Axis::new_top_axis(scale, w, h) {
            Ok(a) => a,
            Err(e) => {
                return Err(ChartError::Scale(e));
            },
        };
        let mut me = self;
        me.x_axis_top = Some(axis);
        Ok(me)
    }

    /// Add an axis at the right of the chart, derived from the scale.
    pub fn add_axis_right(self, scale: &AnyScale) -> (r: Result<Chart, ChartError>)
        requires
            self.wf(),
            crate::axis::scale_wf(*scale),
            self.width_val() - self.margins().3 - self.margins().1 >= 0,
            self.height_val() - self.margins().0 - self.margins().2 >= 0,
        ensures
            r matches Ok(c) ==> c.wf() && (c.right_axis() matches Some(a) && a.ticks_ok_for(*scale)
                && a.position_val() == AxisPosition::Right) && c.width_val() == self.width_val()
                && c.height_val() == self.height_val() && c.margins() == self.margins(),
            r is Ok <==> crate::axis::axis_scale_ok(*scale),
            r matches Err(e) ==> e matches ChartError::Scale(_),
    {
        let w = self.get_view_width();
        let h = self.get_view_height();
        let axis = match Axis::new_right_axis(scale, w, h) {
            Ok(a) => a,
            Err(e) => {
                return Err(ChartError::Scale(e));
            },
        };
        let mut me = self;
        me.y_axis_right = Some(axis);
        Ok(me)
    }

    /// Add a label to the right axis; an error when that axis was never
    /// added.
    pub fn add_right_axis_label(self, label: String) -> (r: Result<Chart, ChartError>)
        requires
            self.wf(),
        ensures
            r is Ok <==> self.right_axis() is Some,
            r matches Ok(c) ==> c.wf() && (c.right_axis() matches Some(a) && a.label_val()
                == label@),
            r matches Ok(c) ==> c.top_axis() == self.top_axis() && c.bottom_axis() == self.bottom_axis()
                && c.left_axis() == self.left_axis() && c.width_val() == self.width_val()
                && c.height_val() == self.height_val() && c.margins() == self.margins()
                && c.title_val() == self.title_val() && c.legend_pos() == self.legend_pos(),
            r matches Err(e) ==> e == ChartError::AxisMissing,
    {
        let mut me = self;
        match &mut me.y_axis_right {
            Some(axis) => {
                axis.set_axis_label(label);
                Ok(me)
            },
            None => Err(ChartError::AxisMissing),
        }
    }

    /// Add a label to the left axis; an error when that axis was never
    /// added.
    pub fn add_left_axis_label(self, label: String) -> (r: Result<Chart, ChartError>)
        requires
            self.wf(),
        ensures
            r is Ok <==> self.left_axis() is Some,
            r matches Ok(c) ==> c.wf() && (c.left_axis() matches Some(a) && a.label_val()
                == label@),
            r matches Ok(c) ==> c.top_axis() == self.top_axis() && c.bottom_axis() == self.bottom_axis()
                && c.right_axis() == self.right_axis() && c.width_val() == self.width_val()
                && c.height_val() == self.height_val() && c.margins() == self.margins()
                && c.title_val() == self.title_val() && c.legend_pos() == self.legend_pos(),
            r matches Err(e) ==> e == ChartError::AxisMissing,
    {
        let mut me = self;
        match &mut me.y_axis_left {
            Some(axis) => {
                axis.set_axis_label(label);
                Ok(me)
            },
            None => Err(ChartError::AxisMissing),
        }
    }

    /// Add a label to the top axis; an error when that axis was never
    /// added.
    pub fn add_top_axis_label(self, label: String) -> (r: Result<Chart, ChartError>)
        requires
            self.wf(),
        ensures
            r is Ok <==> self.top_axis() is Some,
            r matches Ok(c) ==> c.wf() && (c.top_axis() matches Some(a) && a.label_val()
                == label@),
            r matches Ok(c) ==> c.bottom_axis() == self.bottom_axis() && c.left_axis() == self.left_axis()
                && c.right_axis() == self.right_axis() && c.width_val() == self.width_val()
                && c.height_val() == self.height_val() && c.margins() == self.margins()
                && c.title_val() == self.title_val() && c.legend_pos() == self.legend_pos(),
            r matches Err(e) ==> e == ChartError::AxisMissing,
    {
        let mut me = self;
        match &mut me.x_axis_top {
            Some(axis) => {
                axis.set_axis_label(label);
                Ok(me)
            },
            None => Err(ChartError::AxisMissing),
        }
    }

    /// Add a label to the bottom axis; an error when that axis was never
    /// added.
    pub fn add_bottom_axis_label(self, label: String) -> (r: Result<Chart, ChartError>)
        requires
            self.wf(),
        ensures
            r is Ok <==> self.bottom_axis() is Some,
            r matches Ok(c) ==> c.wf() && (c.bottom_axis() matches Some(a) && a.label_val()
                == label@),
            r matches Ok(c) ==> c.top_axis() == self.top_axis() && c.left_axis() == self.left_axis()
                && c.right_axis() == self.right_axis() && c.width_val() == self.width_val()
                && c.height_val() == self.height_val() && c.margins() == self.margins()
                && c.title_val() == self.title_val() && c.legend_pos() == self.legend_pos(),
            r matches Err(e) ==> e == ChartError::AxisMissing,
    {
        let mut me = self;
        match &mut me.x_axis_bottom {
            Some(axis) => {
                axis.set_axis_label(label);
                Ok(me)
            },
            None => Err(ChartError::AxisMissing),
        }
    }

    /// Show the legend at the given side of the chart.
    pub fn add_legend_at(self, position: AxisPosition) -> (c: Chart)
        requires
            self.wf(),
        ensures
            c.wf(),
            c.legend_pos() == Some(position),
    {
        let mut me = self;
        me.legend_position = Some(position);
        me
    }

    /// Set the rotation in degrees of the bottom axis tick labels; does
    /// nothing when the axis is absent.
    pub fn set_bottom_axis_tick_label_rotation(self, rotation: i64) -> (c: Chart)
        requires
            self.wf(),
        ensures
            c.wf(),
    {
        let mut me = self;
        match &mut me.x_axis_bottom {
            Some(axis) => axis.set_tick_label_rotation(rotation),
            None => {},
        }
        me
    }

    /// Set the rotation in degrees of the top axis tick labels.
    pub fn set_top_axis_tick_label_rotation(self, rotation: i64) -> (c: Chart)
        requires
            self.wf(),
        ensures
            c.wf(),
    {
        let mut me = self;
        match &mut me.x_axis_top {
            Some(axis) => axis.set_tick_label_rotation(rotation),
            None => {},
        }
        me
    }

    /// Set the rotation in degrees of the left axis tick labels.
    pub fn set_left_axis_tick_label_rotation(self, rotation: i64) -> (c: Chart)
        requires
            self.wf(),
        ensures
            c.wf(),
    {
        let mut me = self;
        match &mut me.y_axis_left {
            Some(axis) => axis.set_tick_label_rotation(rotation),
            None => {},
        }
        me
    }

    /// Set the rotation in degrees of the right axis tick labels.
    pub fn set_right_axis_tick_label_rotation(self, rotation: i64) -> (c: Chart)
        requires
            self.wf(),
        ensures
            c.wf(),
    {
        let mut me = self;
        match &mut me.y_axis_right {
            Some(axis) => axis.set_tick_label_rotation(rotation),
            None => {},
        }
        me
    }

    /// Set the format pattern of labels on the left axis.
    pub fn set_left_axis_tick_label_format(self, format: &str) -> (c: Chart)
        requires
            self.wf(),
        ensures
            c.wf(),
    {
        let mut me = self;
        match &mut me.y_axis_left {
            Some(axis) => axis.set_tick_label_format(format),
            None => {},
        }
        me
    }

    /// Set the format pattern of labels on the right axis.
    pub fn set_right_axis_tick_label_format(self, format: &str) -> (c: Chart)
        requires
            self.wf(),
        ensures
            c.wf(),
    {
        let mut me = self;
        match &mut me.y_axis_right {
            Some(axis) => axis.set_tick_label_format(format),
            None => {},
        }
        me
    }

    /// Set the format pattern of labels on the top axis.
    pub fn set_top_axis_tick_label_format(self, format: &str) -> (c: Chart)
        requires
            self.wf(),
        ensures
            c.wf(),
    {
        let mut me = self;
        match &mut me.x_axis_top {
            Some(axis) => axis.set_tick_label_format(format),
            None => {},
        }
        me
    }

    /// Set the format pattern of labels on the bottom axis.
    pub fn set_bottom_axis_tick_label_format(self, format: &str) -> (c: Chart)
        requires
            self.wf(),
        ensures
            c.wf(),
    {
        let mut me = self;
        match &mut me.x_axis_bottom {
            Some(axis) => axis.set_tick_label_format(format),
            None => {},
        }
        me
    }

    pub fn top_axis_ref(&self) -> (r: &Option<Axis>)
        ensures
            *r == self.top_axis(),
    {
        &self.x_axis_top
    }

    pub fn bottom_axis_ref(&self) -> (r: &Option<Axis>)
        ensures
            *r == self.bottom_axis(),
    {
        &self.x_axis_bottom
    }

    pub fn left_axis_ref(&self) -> (r: &Option<Axis>)
        ensures
            *r == self.left_axis(),
    {
        &self.y_axis_left
    }

    pub fn right_axis_ref(&self) -> (r: &Option<Axis>)
        ensures
            *r == self.right_axis(),
    {
        &self.y_axis_right
    }

    pub fn legend_position(&self) -> (r: Option<AxisPosition>)
        ensures
            r == self.legend_pos(),
    {
        self.legend_position
    }

    pub fn title(&self) -> (r: &String)
        ensures
            r@ == self.title_val(),
    {
        &self.title
    }

    /// Where the legend goes: its available width and its offsets from
    /// the chart's top-left corner. The space reserved next to an axis
    /// depends on whether that axis carries a label; `None` when no
    /// legend position was chosen.
    pub fn legend_placement(&self) -> (r: Option<(isize, isize, isize)>)
        requires
            self.wf(),
        ensures
            r is Some <==> self.legend_pos() is Some,
            self.legend_pos() matches Some(p) ==> r matches Some(t) && ({
                let (w, x, y) = t;
                match p {
                    AxisPosition::Top => w as int == self.width_val() - self.margins().1
                        - self.margins().3 && x as int == self.margins().3 && y as int == (
                    if self.title_val().len() > 0 {
                        45int
                    } else {
                        10int
                    }),
                    AxisPosition::Bottom => {
                        let axis_height: int = match self.bottom_axis() {
                            Some(a) => if a.label_val().len() > 0 {
                                52int
                            } else {
                                36int
                            },
                            None => 16int,
                        };
                        w as int == self.width_val() - self.margins().1 - self.margins().3
                            && x as int == self.margins().3 && y as int == self.height_val()
                            - self.margins().2 + axis_height
                    },
                    AxisPosition::Left => {
                        let axis_width: int = match self.left_axis() {
                            Some(a) => if a.label_val().len() > 0 {
                                68int
                            } else {
                                50int
                            },
                            None => 20int,
                        };
                        w as int == self.margins().3 - axis_width - 10 && x as int == 10
                            && y as int == self.margins().0
                    },
                    AxisPosition::Right => {
                        let axis_width: int = match self.right_axis() {
                            Some(a) => if a.label_val().len() > 0 {
                                68int
                            } else {
                                50int
                            },
                            None => 20int,
                        };
                        w as int == self.margins().1 - axis_width && x as int == self.width_val()
                            - self.margins().1 + axis_width && y as int == self.margins().0
                    },
                }
            }),
    {
        let position = match self.legend_position {
            Some(p) => p,
            None => {
                return None;
            },
        };
        match position {
            AxisPosition::Top => {
                let axis_height: isize = if self.title.as_str().unicode_len() > 0 {
                    45
                } else {
                    10
                };
                Some((self.width - self.margin_right - self.margin_left, self.margin_left,
                    axis_height))
            },
            AxisPosition::Bottom => {
                let axis_height: isize = match &self.x_axis_bottom {
                    Some(axis) => if axis.has_label() {
                        52
                    } else {
                        36
                    },
                    None => 16,
                };
                Some((self.width - self.margin_right - self.margin_left, self.margin_left,
                    self.height - self.margin_bottom + axis_height))
            },
            AxisPosition::Left => {
                let axis_width: isize = match &self.y_axis_left {
                    Some(axis) => if axis.has_label() {
                        68
                    } else {
                        50
                    },
                    None => 20,
                };
                Some((self.margin_left - axis_width - 10, 10, self.margin_top))
            },
            AxisPosition::Right => {
                let axis_width: isize = match &self.y_axis_right {
                    Some(axis) => if axis.has_label() {
                        68
                    } else {
                        50
                    },
                    None => 20,
                };
                Some((self.margin_right - axis_width, self.width - self.margin_right + axis_width,
                    self.margin_top))
            },
        }
    }
}

} // verus!
