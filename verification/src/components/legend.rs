//! A legend entry: a marker descriptor plus a text label, with the
//! derived display width the legend layout packs by.

use vstd::prelude::*;
use crate::components::scatter::MarkerType;
use vstd::string::StrSliceExecFns;

verus! {

/// The marker drawn in front of a legend label.
#[derive(Copy, Clone, Debug, PartialEq, Eq, Structural)]
pub enum LegendMarkerType {
    Circle,
    Square,
    X,
    Line,
}

impl From<MarkerType> for LegendMarkerType {
    /// The legend marker matching a point marker.
    fn from(marker_type: MarkerType) -> (r: LegendMarkerType) {
        match marker_type {
            MarkerType::Circle => LegendMarkerType::Circle,
            MarkerType::Square => LegendMarkerType::Square,
            MarkerType::X => LegendMarkerType::X,
        }
    }
}

impl vstd::std_specs::convert::FromSpecImpl<MarkerType> for LegendMarkerType {
    open spec fn obeys_from_spec() -> bool {
        true
    }

    open spec fn from_spec(marker_type: MarkerType) -> LegendMarkerType {
        match marker_type {
            MarkerType::Circle => LegendMarkerType::Circle,
            MarkerType::Square => LegendMarkerType::Square,
            MarkerType::X => LegendMarkerType::X,
        }
    }
}

/// The fixed sizes of a legend entry's parts, in pixels.
pub open spec fn legend_marker_size() -> int {
    7
}

/// An entry in the chart's legend.
pub struct LegendEntry {
    marker_type: LegendMarkerType,
    color: String,
    stroke_type: String,
    label: String,
}

impl LegendEntry {
    pub closed spec fn label_val(&self) -> Seq<char> {
        self.label@
    }

    pub closed spec fn color_val(&self) -> Seq<char> {
        self.color@
    }

    pub closed spec fn stroke_val(&self) -> Seq<char> {
        self.stroke_type@
    }

    pub closed spec fn marker_val(&self) -> LegendMarkerType {
        self.marker_type
    }

    /// The entry's display width: a rough per-letter heuristic plus the
    /// marker and the gap, not true text measurement.
    pub open spec fn width_spec(&self) -> int {
        7 * self.label_val().len() as int + 20
    }

    /// Create a new legend entry; the marker size (7) and the
    /// marker-to-label gap (6) are fixed.
    pub fn new(marker_type: LegendMarkerType, color: String, stroke_type: String, label: String)
        -> (e: LegendEntry)
        ensures
            e.marker_val() == marker_type,
            e.color_val() == color@,
            e.stroke_val() == stroke_type@,
            e.label_val() == label@,
    {
        LegendEntry { marker_type, color, stroke_type, label }
    }

    /// The width used to place legend entries: seven pixels per letter,
    /// plus twice the marker size and the marker-to-label gap.
    pub fn get_width(&self) -> (r: usize)
        requires
            self.label_val().len() <= 0x10_0000,
        ensures
            r == self.width_spec(),
    {
        7 * self.label.as_str().unicode_len() + 20
    }

    pub fn marker_type(&self) -> (r: LegendMarkerType)
        ensures
            r == self.marker_val(),
    {
        self.marker_type
    }

    /// The fixed marker size.
    pub fn marker_size(&self) -> (r: usize)
        ensures
            r == 7,
    {
        7
    }

    /// The fixed gap between the marker and the label.
    pub fn marker_to_label_gap(&self) -> (r: usize)
        ensures
            r == 6,
    {
        6
    }

    pub fn color(&self) -> (r: &String)
        ensures
            r@ == self.color_val(),
    {
        &self.color
    }

    pub fn stroke_type(&self) -> (r: &String)
        ensures
            r@ == self.stroke_val(),
    {
        &self.stroke_type
    }

    pub fn label(&self) -> (r: &String)
        ensures
            r@ == self.label_val(),
    {
        &self.label
    }
}

} // verus!
