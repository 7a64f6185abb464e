//! The area view: a single filled series through all data points, closed
//! down to the axis baseline by two extra outline points.

use vstd::prelude::*;
use crate::colors::Color;
use crate::components::area::AreaSeries;
use crate::components::legend::{LegendEntry, LegendMarkerType};
use crate::components::scatter::{MarkerType, PointLabel, PointLabelPosition, ScatterPoint};
use crate::rational::{q_eq, q_int, Rat};
use crate::views::datum::PointDatum;
use crate::views::scatter::{scale_point_x, scale_point_y};
use crate::views::{point_pos_ok, point_x_ok, point_y_ok, DataError, ViewScale};

verus! {

/// The pixel row the area closes down to: the range end, or the range
/// start when the caller gave the Y range in descending order.
pub open spec fn area_origin(ys: &ViewScale) -> int {
    match ys {
        ViewScale::Band(b) => b.rng().1,
        ViewScale::Linear(l) => if l.rng().0 > l.rng().1 {
            l.rng().0
        } else {
            l.rng().1
        },
    }
}

/// A view that represents data as a filled area.
pub struct AreaSeriesView {
    labels_visible: bool,
    label_position: PointLabelPosition,
    marker_type: MarkerType,
    entries: Vec<AreaSeries>,
    colors: Vec<Color>,
    x_scale: Option<ViewScale>,
    y_scale: Option<ViewScale>,
    custom_data_label: String,
}

impl AreaSeriesView {
    pub closed spec fn colors_view(&self) -> Seq<Color> {
        self.colors@
    }

    pub closed spec fn series_view(&self) -> Seq<AreaSeries> {
        self.entries@
    }

    pub closed spec fn x_scale_view(&self) -> Option<ViewScale> {
        self.x_scale
    }

    pub closed spec fn y_scale_view(&self) -> Option<ViewScale> {
        self.y_scale
    }

    pub closed spec fn custom_label_val(&self) -> Seq<char> {
        self.custom_data_label@
    }

    pub closed spec fn wf(&self) -> bool {
        &&& (self.x_scale matches Some(s) ==> s.wf())
        &&& (self.y_scale matches Some(s) ==> s.wf())
        &&& self.colors@.len() >= 1
    }

    /// Create a new empty instance of the view.
    pub fn new() -> (v: AreaSeriesView)
        ensures
            v.wf(),
            v.x_scale_view() is None,
            v.y_scale_view() is None,
    {
        AreaSeriesView {
            labels_visible: true,
            label_position: PointLabelPosition::NW,
            marker_type: MarkerType::Circle,
            entries: Vec::new(),
            colors: Color::color_scheme_10(),
            x_scale: None,
            y_scale: None,
            custom_data_label: String::new(),
        }
    }

    /// Set the scale for the X dimension.
    pub fn set_x_scale(self, scale: ViewScale) -> (v: AreaSeriesView)
        requires
            self.wf(),
            scale.wf(),
        ensures
            v.wf(),
            v.x_scale_view() == Some(scale),
            v.y_scale_view() == self.y_scale_view(),
    {
        let mut me = self;
        me.x_scale = Some(scale);
        me
    }

    /// Set the scale for the Y dimension.
    pub fn set_y_scale(self, scale: ViewScale) -> (v: AreaSeriesView)
        requires
            self.wf(),
            scale.wf(),
        ensures
            v.wf(),
            v.y_scale_view() == Some(scale),
            v.x_scale_view() == self.x_scale_view(),
    {
        let mut me = self;
        me.y_scale = Some(scale);
        me
    }

    /// Set the positioning of the point labels.
    pub fn set_label_position(self, label_position: PointLabelPosition) -> (v: AreaSeriesView)
        requires
            self.wf(),
        ensures
            v.wf(),
    {
        let mut me = self;
        me.label_position = label_position;
        me
    }

    /// Set the marker drawn at each point.
    pub fn set_marker_type(self, marker_type: MarkerType) -> (v: AreaSeriesView)
        requires
            self.wf(),
        ensures
            v.wf(),
    {
        let mut me = self;
        me.marker_type = marker_type;
        me
    }

    /// Set the color palette of the view.
    pub fn set_colors(self, colors: Vec<Color>) -> (v: AreaSeriesView)
        requires
            self.wf(),
            colors@.len() >= 1,
        ensures
            v.wf(),
            v.colors_view() == colors@,
    {
        let mut me = self;
        me.colors = colors;
        me
    }

    /// Set labels visibility.
    pub fn set_label_visibility(self, label_visibility: bool) -> (v: AreaSeriesView)
        requires
            self.wf(),
        ensures
            v.wf(),
    {
        let mut me = self;
        me.labels_visible = label_visibility;
        me
    }

    /// Set a custom label for the dataset.
    pub fn set_custom_data_label(self, label: String) -> (v: AreaSeriesView)
        requires
            self.wf(),
        ensures
            v.wf(),
            v.custom_label_val() == label@,
    {
        let mut me = self;
        me.custom_data_label = label;
        me
    }

    /// Return the legend entries of this view: an area holds a single
    /// series, shown as one square entry with the custom data label.
    pub fn get_legend_entries(&self) -> (r: Vec<LegendEntry>)
        requires
            self.wf(),
        ensures
            r@.len() == 1,
            r@[0].label_val() == self.custom_label_val(),
            r@[0].color_val() == self.colors_view()[0].hexv(),
    {
        let mut entries: Vec<LegendEntry> = Vec::new();
        entries.push(
            LegendEntry::new(
                LegendMarkerType::Square,
                self.colors[0].as_hex(),
                "none".to_owned(),
                self.custom_data_label.clone(),
            ),
        );
        entries
    }

    /// The loaded series.
    pub fn series(&self) -> (r: &Vec<AreaSeries>)
        ensures
            r@ == self.series_view(),
    {
        &self.entries
    }

    /// Load and process a dataset of points into one filled series: every
    /// datum at its scaled position, then two closing points above the
    /// last and first datum at the baseline, so the outline closes along
    /// the axis.
    #[verifier::loop_isolation(false)]
    pub fn load_data<D: PointDatum>(self, data: &Vec<D>) -> (r: Result<AreaSeriesView, DataError>)
        requires
            self.wf(),
            data@.len() >= 1,
            data@.len() <= 0x10_0000,
        ensures
            (r == Err::<AreaSeriesView, DataError>(DataError::MissingScale)) <==> (self
                .x_scale_view() is None || self.y_scale_view() is None),
            r is Ok <==> ({
                &&& self.x_scale_view() is Some
                &&& self.y_scale_view() is Some
                &&& forall|i: int|
                    0 <= i < data@.len() ==> point_x_ok(
                        &self.x_scale_view()->Some_0,
                        #[trigger] data@[i],
                    ) && point_y_ok(&self.y_scale_view()->Some_0, data@[i])
            }),
            r matches Ok(v) ==> ({
                let nd = data@.len() as int;
                &&& self.x_scale_view() matches Some(xs)
                &&& self.y_scale_view() matches Some(ys)
                &&& v.series_view().len() == 1
                &&& v.series_view()[0].color_val() == self.colors_view()[0].hexv()
                &&& v.series_view()[0].points_view().len() == nd + 2
                &&& (forall|i: int|
                    0 <= i < nd ==> point_pos_ok(
                        &xs,
                        data@[i],
                        false,
                        (#[trigger] v.series_view()[0].points_view()[i]).x_val(),
                    ) && point_pos_ok(
                        &ys,
                        data@[i],
                        true,
                        v.series_view()[0].points_view()[i].y_val(),
                    ))
                &&& point_pos_ok(
                    &xs,
                    data@[nd - 1],
                    false,
                    v.series_view()[0].points_view()[nd].x_val(),
                )
                &&& point_pos_ok(
                    &xs,
                    data@[0],
                    false,
                    v.series_view()[0].points_view()[nd + 1].x_val(),
                )
                &&& q_eq(v.series_view()[0].points_view()[nd].y_val(), q_int(area_origin(&ys)))
                &&& q_eq(
                    v.series_view()[0].points_view()[nd + 1].y_val(),
                    q_int(area_origin(&ys)),
                )
                &&& v.wf()
            }),
    {
        if self.x_scale.is_none() || self.y_scale.is_none() {
            return Err(DataError::MissingScale);
        }
        let mut me = self;
        let nd = data.len();
        let color = me.colors[0].as_hex();
        let mut points: Vec<ScatterPoint> = Vec::new();
        let mut i: usize = 0;
        while i < nd
            invariant
                0 <= i <= nd,
                nd == data@.len(),
                points@.len() == i,
                me.x_scale matches Some(xs) && xs.wf(),
                me.y_scale matches Some(ys) && ys.wf(),
                me.x_scale == self.x_scale_view(),
                me.y_scale == self.y_scale_view(),
                forall|k: int|
                    0 <= k < i ==> point_x_ok(&self.x_scale_view()->Some_0, #[trigger] data@[k])
                        && point_y_ok(&self.y_scale_view()->Some_0, data@[k]),
                forall|k: int|
                    0 <= k < i ==> point_pos_ok(
                        &self.x_scale_view()->Some_0,
                        data@[k],
                        false,
                        (#[trigger] points@[k]).x_val(),
                    ) && point_pos_ok(
                        &self.y_scale_view()->Some_0,
                        data@[k],
                        true,
                        points@[k].y_val(),
                    ),
            decreases nd - i,
        {
            let d = &data[i];
            let px = match scale_point_x(me.x_scale.as_ref().unwrap(), d) {
                Ok(p) => p,
                Err(e) => {
                    proof {
                        assert(!point_x_ok(&self.x_scale_view()->Some_0, data@[i as int]));
                    }
                    return Err(e);
                },
            };
            let py = match scale_point_y(me.y_scale.as_ref().unwrap(), d) {
                Ok(p) => p,
                Err(e) => {
                    proof {
                        assert(!point_y_ok(&self.y_scale_view()->Some_0, data@[i as int]));
                    }
                    return Err(e);
                },
            };
            let xl = if d.is_x_category() {
                PointLabel::Text(d.get_x_category())
            } else {
                PointLabel::Number(d.get_x_number())
            };
            let point = ScatterPoint::new(
                px,
                py,
                me.marker_type,
                5,
                xl,
                PointLabel::Number(d.get_y()),
                me.label_position,
                me.labels_visible,
                true,
                color.clone(),
            );
            points.push(point);
            i = i + 1;
        }
        // the two closing points along the baseline
        let y_origin: Rat = match me.y_scale.as_ref().unwrap() {
            ViewScale::Band(b) => Rat::from_int(b.range_end() as i64),
            ViewScale::Linear(l) => {
                if l.is_range_reversed() {
                    Rat::from_int(l.range_start() as i64)
                } else {
                    Rat::from_int(l.range_end() as i64)
                }
            },
        };
        let last_x = match scale_point_x(me.x_scale.as_ref().unwrap(), &data[nd - 1]) {
            Ok(p) => p,
            Err(e) => {
                proof {
                    assert(!point_x_ok(&self.x_scale_view()->Some_0, data@[nd - 1]));
                }
                return Err(e);
            },
        };
        let first_x = match scale_point_x(me.x_scale.as_ref().unwrap(), &data[0]) {
            Ok(p) => p,
            Err(e) => {
                proof {
                    assert(!point_x_ok(&self.x_scale_view()->Some_0, data@[0]));
                }
                return Err(e);
            },
        };
        let close1 = ScatterPoint::new(
            last_x,
            y_origin,
            me.marker_type,
            5,
            PointLabel::Number(Rat::from_int(0)),
            PointLabel::Number(Rat::from_int(0)),
            me.label_position,
            false,
            false,
            "#fff".to_owned(),
        );
        let close2 = ScatterPoint::new(
            first_x,
            y_origin,
            me.marker_type,
            5,
            PointLabel::Number(Rat::from_int(0)),
            PointLabel::Number(Rat::from_int(0)),
            me.label_position,
            false,
            false,
            "#fff".to_owned(),
        );
        points.push(close1);
        points.push(close2);
        let series = AreaSeries::new(points, color);
        let mut entries: Vec<AreaSeries> = Vec::new();
        entries.push(series);
        me.entries = entries;
        Ok(me)
    }
}

} // verus!
