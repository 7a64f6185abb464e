//! The line view: one polyline per series key, through the scaled
//! positions of that key's data points, in row order.

use vstd::prelude::*;
use vstd::string::StrSliceExecFns;
use crate::colors::Color;
use crate::components::legend::{LegendEntry, LegendMarkerType};
use crate::components::line::LineSeries;
use crate::components::scatter::{MarkerType, PointLabel, PointLabelPosition, ScatterPoint};
use crate::scales::band::strs;
use crate::views::datum::PointDatum;
use crate::views::scatter::{extract_point_keys, lemma_point_keys_len, point_keys, scale_point_x,
    scale_point_y};
use crate::views::{point_pos_ok, point_x_ok, point_y_ok, DataError, ViewScale};

verus! {

/// The rows whose key is `k`, in row order.
pub open spec fn rows_with_key<D: PointDatum>(rows: Seq<D>, k: Seq<char>) -> Seq<D>
    decreases rows.len(),
{
    if rows.len() == 0 {
        Seq::empty()
    } else {
        let rest = rows_with_key(rows.drop_last(), k);
        if rows.last().key_spec() == k {
            rest.push(rows.last())
        } else {
            rest
        }
    }
}

/// A view that represents data as one line per series.
pub struct LineSeriesView {
    labels_visible: bool,
    label_position: PointLabelPosition,
    marker_type: MarkerType,
    entries: Vec<LineSeries>,
    colors: Vec<Color>,
    keys: Vec<String>,
    x_scale: Option<ViewScale>,
    y_scale: Option<ViewScale>,
    custom_data_label: String,
}

impl LineSeriesView {
    pub closed spec fn keys_view(&self) -> Seq<Seq<char>> {
        strs(self.keys@)
    }

    pub closed spec fn colors_view(&self) -> Seq<Color> {
        self.colors@
    }

    pub closed spec fn series_view(&self) -> Seq<LineSeries> {
        self.entries@
    }

    pub closed spec fn x_scale_view(&self) -> Option<ViewScale> {
        self.x_scale
    }

    pub closed spec fn y_scale_view(&self) -> Option<ViewScale> {
        self.y_scale
    }

    pub closed spec fn custom_label_val(&self) -> Seq<char> {
        self.custom_data_label@
    }

    pub closed spec fn wf(&self) -> bool {
        &&& (self.x_scale matches Some(s) ==> s.wf())
        &&& (self.y_scale matches Some(s) ==> s.wf())
        &&& self.colors@.len() >= 1
        &&& self.keys@.len() <= 0x10_0000
    }

    /// Create a new empty instance of the view.
    pub fn new() -> (v: LineSeriesView)
        ensures
            v.wf(),
            v.x_scale_view() is None,
            v.y_scale_view() is None,
            v.keys_view() == Seq::<Seq<char>>::empty(),
    {
        let v = LineSeriesView {
            labels_visible: true,
            label_position: PointLabelPosition::NW,
            marker_type: MarkerType::Circle,
            entries: Vec::new(),
            colors: Color::color_scheme_10(),
            keys: Vec::new(),
            x_scale: None,
            y_scale: None,
            custom_data_label: String::new(),
        };
        proof {
            assert(v.keys_view() =~= Seq::<Seq<char>>::empty());
        }
        v
    }

    /// Set the scale for the X dimension.
    pub fn set_x_scale(self, scale: ViewScale) -> (v: LineSeriesView)
        requires
            self.wf(),
            scale.wf(),
        ensures
            v.wf(),
            v.x_scale_view() == Some(scale),
            v.y_scale_view() == self.y_scale_view(),
    {
        let mut me = self;
        me.x_scale = Some(scale);
        me
    }

    /// Set the scale for the Y dimension.
    pub fn set_y_scale(self, scale: ViewScale) -> (v: LineSeriesView)
        requires
            self.wf(),
            scale.wf(),
        ensures
            v.wf(),
            v.y_scale_view() == Some(scale),
            v.x_scale_view() == self.x_scale_view(),
    {
        let mut me = self;
        me.y_scale = Some(scale);
        me
    }

    /// Set the series keys of the view.
    pub fn set_keys(self, keys: Vec<String>) -> (v: LineSeriesView)
        requires
            self.wf(),
            keys@.len() <= 0x10_0000,
        ensures
            v.wf(),
            v.keys_view() == strs(keys@),
    {
        let mut me = self;
        me.keys = keys;
        me
    }

    /// Set the positioning of the point labels.
    pub fn set_label_position(self, label_position: PointLabelPosition) -> (v: LineSeriesView)
        requires
            self.wf(),
        ensures
            v.wf(),
    {
        let mut me = self;
        me.label_position = label_position;
        me
    }

    /// Set the marker drawn at each point.
    pub fn set_marker_type(self, marker_type: MarkerType) -> (v: LineSeriesView)
        requires
            self.wf(),
        ensures
            v.wf(),
    {
        let mut me = self;
        me.marker_type = marker_type;
        me
    }

    /// Set the color palette of the view.
    pub fn set_colors(self, colors: Vec<Color>) -> (v: LineSeriesView)
        requires
            self.wf(),
            colors@.len() >= 1,
        ensures
            v.wf(),
            v.colors_view() == colors@,
    {
        let mut me = self;
        me.colors = colors;
        me
    }

    /// Set labels visibility.
    pub fn set_label_visibility(self, label_visibility: bool) -> (v: LineSeriesView)
        requires
            self.wf(),
        ensures
            v.wf(),
    {
        let mut me = self;
        me.labels_visible = label_visibility;
        me
    }

    /// Set a custom label for a dataset without keys.
    pub fn set_custom_data_label(self, label: String) -> (v: LineSeriesView)
        requires
            self.wf(),
        ensures
            v.wf(),
            v.custom_label_val() == label@,
    {
        let mut me = self;
        me.custom_data_label = label;
        me
    }

    /// Return the legend entries of this view: the custom data label when
    /// the data has no keys, one line-marker entry per key otherwise.
    pub fn get_legend_entries(&self) -> (r: Vec<LegendEntry>)
        requires
            self.wf(),
        ensures
            self.keys_view().len() == 1 && self.keys_view()[0].len() == 0 ==> r@.len() == 1
                && r@[0].label_val() == self.custom_label_val(),
            !(self.keys_view().len() == 1 && self.keys_view()[0].len() == 0) ==> r@.len() == self
                .keys_view().len() && (forall|i: int|
                0 <= i < r@.len() ==> (#[trigger] r@[i]).label_val() == self.keys_view()[i]
                    && r@[i].color_val() == self.colors_view()[i % self.colors_view().len() as int]
                    .hexv()),
    {
        let mut entries: Vec<LegendEntry> = Vec::new();
        let nc = self.colors.len();
        let single = self.keys.len() == 1 && self.keys[0].as_str().unicode_len() == 0;
        if single {
            entries.push(
                LegendEntry::new(
                    LegendMarkerType::Line,
                    self.colors[0].as_hex(),
                    "none".to_owned(),
                    self.custom_data_label.clone(),
                ),
            );
        } else {
            let n = self.keys.len();
            let mut i: usize = 0;
            while i < n
                invariant
                    0 <= i <= n,
                    n == self.keys@.len(),
                    nc == self.colors@.len(),
                    nc >= 1,
                    entries@.len() == i,
                    forall|k: int|
                        0 <= k < i ==> (#[trigger] entries@[k]).label_val() == strs(self.keys@)[k]
                            && entries@[k].color_val() == self.colors@[k % nc as int].hexv(),
                decreases n - i,
            {
                entries.push(
                    LegendEntry::new(
                        LegendMarkerType::Line,
                        self.colors[i % nc].as_hex(),
                        "none".to_owned(),
                        self.keys[i].clone(),
                    ),
                );
                i = i + 1;
            }
        }
        entries
    }

    /// The loaded series.
    pub fn series(&self) -> (r: &Vec<LineSeries>)
        ensures
            r@ == self.series_view(),
    {
        &self.entries
    }

    /// Load and process a dataset of points: one series per key, whose
    /// points are the scaled positions of that key's rows, in row order,
    /// drawn in the key's palette color.
    #[verifier::loop_isolation(false)]
    pub fn load_data<D: PointDatum>(self, data: &Vec<D>) -> (r: Result<LineSeriesView, DataError>)
        requires
            self.wf(),
            data@.len() <= 0x10_0000,
        ensures
            (r == Err::<LineSeriesView, DataError>(DataError::MissingScale)) <==> (self
                .x_scale_view() is None || self.y_scale_view() is None),
            r is Ok <==> ({
                let keys = if self.keys_view().len() == 0 {
                    crate::scales::band::dedup_first(point_keys(data@))
                } else {
                    self.keys_view()
                };
                &&& self.x_scale_view() is Some
                &&& self.y_scale_view() is Some
                &&& forall|di: int|
                    0 <= di < data@.len() && keys.contains(
                        (#[trigger] data@[di]).key_spec(),
                    ) ==> point_x_ok(&self.x_scale_view()->Some_0, data@[di]) && point_y_ok(
                        &self.y_scale_view()->Some_0,
                        data@[di],
                    )
            }),
            r matches Ok(v) ==> ({
                let keys = if self.keys_view().len() == 0 {
                    crate::scales::band::dedup_first(point_keys(data@))
                } else {
                    self.keys_view()
                };
                &&& self.x_scale_view() matches Some(xs)
                &&& self.y_scale_view() matches Some(ys)
                &&& v.keys_view() == keys
                &&& v.series_view().len() == keys.len()
                &&& (forall|si: int|
                    0 <= si < keys.len() ==> series_ok(
                        data@,
                        keys[si],
                        &xs,
                        &ys,
                        self.colors_view(),
                        si,
                        #[trigger] v.series_view()[si],
                    ))
                &&& v.wf()
            }),
    {
        if self.x_scale.is_none() || self.y_scale.is_none() {
            return Err(DataError::MissingScale);
        }
        let mut me = self;
        if me.keys.len() == 0 {
            let extracted = extract_point_keys(data);
            proof {
                crate::scales::band::lemma_dedup_first_props(point_keys(data@));
                lemma_point_keys_len(data@);
            }
            me.keys = extracted;
        }
        let ghost keysv = strs(me.keys@);
        let nd = data.len();
        let nk = me.keys.len();
        let nc = me.colors.len();
        let mut series: Vec<LineSeries> = Vec::new();
        let mut si: usize = 0;
        while si < nk
            invariant
                0 <= si <= nk,
                nk == me.keys@.len(),
                nd == data@.len(),
                nc == me.colors@.len(),
                nc >= 1,
                keysv == strs(me.keys@),
                me.colors@ == self.colors_view(),
                me.x_scale matches Some(xs) && xs.wf(),
                me.y_scale matches Some(ys) && ys.wf(),
                me.x_scale == self.x_scale_view(),
                me.y_scale == self.y_scale_view(),
                forall|di: int, ki: int|
                    0 <= di < nd && 0 <= ki < si && (#[trigger] data@[di]).key_spec() == #[trigger] keysv[ki]
                        ==> point_x_ok(&self.x_scale_view()->Some_0, data@[di]) && point_y_ok(
                        &self.y_scale_view()->Some_0,
                        data@[di],
                    ),
                series@.len() == si,
                forall|k: int|
                    0 <= k < si ==> series_ok(
                        data@,
                        keysv[k],
                        &self.x_scale_view()->Some_0,
                        &self.y_scale_view()->Some_0,
                        self.colors_view(),
                        k,
                        #[trigger] series@[k],
                    ),
            decreases nk - si,
        {
            let key = me.keys[si].clone();
            let color = me.colors[si % nc].as_hex();
            let mut points: Vec<ScatterPoint> = Vec::new();
            let mut di: usize = 0;
            while di < nd
                invariant
                    0 <= di <= nd,
                    0 <= si < nk,
                    nd == data@.len(),
                    key@ == keysv[si as int],
                    me.x_scale matches Some(xs) && xs.wf(),
                    me.y_scale matches Some(ys) && ys.wf(),
                    me.x_scale == self.x_scale_view(),
                    me.y_scale == self.y_scale_view(),
                    forall|d2: int, ki: int|
                        0 <= d2 < nd && 0 <= ki < si && (#[trigger] data@[d2]).key_spec()
                            == #[trigger] keysv[ki] ==> point_x_ok(
                            &self.x_scale_view()->Some_0,
                            data@[d2],
                        ) && point_y_ok(&self.y_scale_view()->Some_0, data@[d2]),
                    forall|d2: int|
                        0 <= d2 < di && (#[trigger] data@[d2]).key_spec() == keysv[si as int]
                            ==> point_x_ok(&self.x_scale_view()->Some_0, data@[d2]) && point_y_ok(
                            &self.y_scale_view()->Some_0,
                            data@[d2],
                        ),
                    points@.len() == rows_with_key(data@.take(di as int), key@).len(),
                    forall|k: int|
                        0 <= k < points@.len() ==> ({
                            let rows = rows_with_key(data@.take(di as int), key@);
                            point_pos_ok(
                                &self.x_scale_view()->Some_0,
                                rows[k],
                                false,
                                (#[trigger] points@[k]).x_val(),
                            ) && point_pos_ok(
                                &self.y_scale_view()->Some_0,
                                rows[k],
                                true,
                                points@[k].y_val(),
                            )
                        }),
                decreases nd - di,
            {
                let d = &data[di];
                let ghost pre = data@.take((di + 1) as int);
                proof {
                    assert(pre.drop_last() =~= data@.take(di as int));
                    assert(pre.last() == data@[di as int]);
                }
                let dkey = d.get_key();
                if dkey == key {
                    proof {
                        assert(keysv[si as int] == data@[di as int].key_spec());
                        assert(keysv.contains(data@[di as int].key_spec()));
                    }
                    let px = match scale_point_x(me.x_scale.as_ref().unwrap(), d) {
                        Ok(p) => p,
                        Err(e) => {
                            proof {
                                assert(!point_x_ok(
                                    &self.x_scale_view()->Some_0,
                                    data@[di as int],
                                ));
                            }
                            return Err(e);
                        },
                    };
                    let py = match scale_point_y(me.y_scale.as_ref().unwrap(), d) {
                        Ok(p) => p,
                        Err(e) => {
                            proof {
                                assert(!point_y_ok(
                                    &self.y_scale_view()->Some_0,
                                    data@[di as int],
                                ));
                            }
                            return Err(e);
                        },
                    };
                    let xl = if d.is_x_category() {
                        PointLabel::Text(d.get_x_category())
                    } else {
                        PointLabel::Number(d.get_x_number())
                    };
                    let point = ScatterPoint::new(
                        px,
                        py,
                        me.marker_type,
                        5,
                        xl,
                        PointLabel::Number(d.get_y()),
                        me.label_position,
                        me.labels_visible,
                        true,
                        color.clone(),
                    );
                    proof {
                        assert(rows_with_key(pre, key@) =~= rows_with_key(
                            data@.take(di as int),
                            key@,
                        ).push(data@[di as int]));
                    }
                    points.push(point);
                } else {
                    proof {
                        assert(rows_with_key(pre, key@) =~= rows_with_key(
                            data@.take(di as int),
                            key@,
                        ));
                    }
                }
                di = di + 1;
            }
            proof {
                assert(data@.take(nd as int) =~= data@);
            }
            let s = LineSeries::new(points, color);
            series.push(s);
            si = si + 1;
        }
        me.entries = series;
        proof {
            let keys = if self.keys_view().len() == 0 {
                crate::scales::band::dedup_first(point_keys(data@))
            } else {
                self.keys_view()
            };
            assert(keysv == keys);
            assert forall|di: int|
                0 <= di < data@.len() && keys.contains((#[trigger] data@[di]).key_spec()) implies
                point_x_ok(&self.x_scale_view()->Some_0, data@[di]) && point_y_ok(
                &self.y_scale_view()->Some_0,
                data@[di],
            ) by {
                let ki = choose|ki: int| 0 <= ki < keysv.len() && keysv[ki] == data@[di].key_spec();
                assert(data@[di].key_spec() == keysv[ki]);
            }
        }
        Ok(me)
    }
}

/// One line series is exact: one point per row with the series' key, at
/// the row's scaled position, drawn in the key's palette color.
pub open spec fn series_ok<D: PointDatum>(
    rows: Seq<D>,
    key: Seq<char>,
    xs: &ViewScale,
    ys: &ViewScale,
    colors: Seq<Color>,
    si: int,
    s: LineSeries,
) -> bool {
    let krows = rows_with_key(rows, key);
    &&& s.color_val() == colors[si % colors.len() as int].hexv()
    &&& s.points_view().len() == krows.len()
    &&& forall|k: int|
        0 <= k < krows.len() ==> point_pos_ok(
            xs,
            krows[k],
            false,
            (#[trigger] s.points_view()[k]).x_val(),
        ) && point_pos_ok(ys, krows[k], true, s.points_view()[k].y_val())
}

} // verus!
