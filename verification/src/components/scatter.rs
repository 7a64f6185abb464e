//! A point in a scatter, line or area view: a pixel position, the datum
//! it came from, a marker and a color.

use vstd::prelude::*;
use crate::rational::Rat;

verus! {

/// The marker drawn at a point.
#[derive(Copy, Clone, Debug, PartialEq, Eq, Structural)]
pub enum MarkerType {
    Circle,
    Square,
    X,
}

/// Where a point's label is drawn, as a compass direction.
#[derive(Copy, Clone, Debug, PartialEq, Eq, Structural)]
pub enum PointLabelPosition {
    N,
    NE,
    E,
    SE,
    S,
    SW,
    W,
    NW,
}

/// The datum text a point shows: the source value of one dimension.
pub enum PointLabel {
    Text(String),
    Number(Rat),
}

/// A positioned point: pixel coordinates plus the datum labels, marker
/// and color a renderer needs.
pub struct ScatterPoint {
    x: Rat,
    y: Rat,
    marker_type: MarkerType,
    marker_size: usize,
    x_label: PointLabel,
    y_label: PointLabel,
    label_position: PointLabelPosition,
    label_visible: bool,
    point_visible: bool,
    color: String,
}

impl ScatterPoint {
    pub closed spec fn x_val(&self) -> crate::rational::Ratio {
        self.x@
    }

    pub closed spec fn y_val(&self) -> crate::rational::Ratio {
        self.y@
    }

    pub closed spec fn color_val(&self) -> Seq<char> {
        self.color@
    }

    pub closed spec fn marker_val(&self) -> MarkerType {
        self.marker_type
    }

    pub closed spec fn marker_size_val(&self) -> int {
        self.marker_size as int
    }

    pub closed spec fn label_position_val(&self) -> PointLabelPosition {
        self.label_position
    }

    pub closed spec fn label_visible_val(&self) -> bool {
        self.label_visible
    }

    pub closed spec fn point_visible_val(&self) -> bool {
        self.point_visible
    }

    pub fn new(
        x: Rat,
        y: Rat,
        marker_type: MarkerType,
        marker_size: usize,
        x_label: PointLabel,
        y_label: PointLabel,
        label_position: PointLabelPosition,
        label_visible: bool,
        point_visible: bool,
        color: String,
    ) -> (p: ScatterPoint)
        ensures
            p.x_val() == x@,
            p.y_val() == y@,
            p.color_val() == color@,
    {
        ScatterPoint {
            x,
            y,
            marker_type,
            marker_size,
            x_label,
            y_label,
            label_position,
            label_visible,
            point_visible,
            color,
        }
    }

    /// The x pixel coordinate of the point.
    pub fn get_x(&self) -> (r: Rat)
        ensures
            r@ == self.x_val(),
    {
        self.x
    }

    /// The y pixel coordinate of the point.
    pub fn get_y(&self) -> (r: Rat)
        ensures
            r@ == self.y_val(),
    {
        self.y
    }

    pub fn color(&self) -> (r: &String)
        ensures
            r@ == self.color_val(),
    {
        &self.color
    }

    pub fn marker_type(&self) -> (r: MarkerType)
        ensures
            r == self.marker_val(),
    {
        self.marker_type
    }

    pub fn marker_size(&self) -> (r: usize)
        ensures
            r as int == self.marker_size_val(),
    {
        self.marker_size
    }

    pub fn x_label(&self) -> (r: &PointLabel)
    {
        &self.x_label
    }

    pub fn y_label(&self) -> (r: &PointLabel)
    {
        &self.y_label
    }

    pub fn label_position(&self) -> (r: PointLabelPosition)
        ensures
            r == self.label_position_val(),
    {
        self.label_position
    }

    pub fn label_visible(&self) -> (r: bool)
        ensures
            r == self.label_visible_val(),
    {
        self.label_visible
    }

    pub fn point_visible(&self) -> (r: bool)
        ensures
            r == self.point_visible_val(),
    {
        self.point_visible
    }
}

} // verus!
