//! A polyline through positioned points, drawn in one color.

use vstd::prelude::*;
use crate::components::scatter::ScatterPoint;

verus! {

/// One series of a line view: its points, in order, and its color.
pub struct LineSeries {
    points: Vec<ScatterPoint>,
    color: String,
}

impl LineSeries {
    pub closed spec fn points_view(&self) -> Seq<ScatterPoint> {
        self.points@
    }

    pub closed spec fn color_val(&self) -> Seq<char> {
        self.color@
    }

    pub fn new(points: Vec<ScatterPoint>, color: String) -> (s: LineSeries)
        ensures
            s.points_view() == points@,
            s.color_val() == color@,
    {
        LineSeries { points, color }
    }

    pub fn points(&self) -> (r: &Vec<ScatterPoint>)
        ensures
            r@ == self.points_view(),
    {
        &self.points
    }

    pub fn color(&self) -> (r: &String)
        ensures
            r@ == self.color_val(),
    {
        &self.color
    }
}

} // verus!
