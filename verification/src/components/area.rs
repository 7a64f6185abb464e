//! A closed polyline through positioned points, filled with one color.

use vstd::prelude::*;
use crate::components::scatter::ScatterPoint;

verus! {

/// One series of an area view: its outline points, in order, and its
/// fill color.
pub struct AreaSeries {
    points: Vec<ScatterPoint>,
    color: String,
}

impl AreaSeries {
    pub closed spec fn points_view(&self) -> Seq<ScatterPoint> {
        self.points@
    }

    pub closed spec fn color_val(&self) -> Seq<char> {
        self.color@
    }

    pub fn new(points: Vec<ScatterPoint>, color: String) -> (s: AreaSeries)
        ensures
            s.points_view() == points@,
            s.color_val() == color@,
    {
        AreaSeries { points, color }
    }

    pub fn points(&self) -> (r: &Vec<ScatterPoint>)
        ensures
            r@ == self.points_view(),
    {
        &self.points
    }

    pub fn color(&self) -> (r: &String)
        ensures
            r@ == self.color_val(),
    {
        &self.color
    }
}

} // verus!
