//! The scatter view: each datum becomes one positioned point, colored by
//! its series key.

use vstd::prelude::*;
use crate::colors::Color;
use crate::components::scatter::{MarkerType, PointLabel, PointLabelPosition, ScatterPoint};
use crate::rational::{q_eq, Rat};
use crate::scales::band::{dedup_first, strs};
use crate::scales::linear::val_ok_exec;
use crate::views::datum::PointDatum;
use crate::views::{find_str, point_pos_ok, point_x_ok, point_y_ok, DataError, ViewScale};

verus! {

/// The keys of a sequence of point rows, in row order.
pub open spec fn point_keys<D: PointDatum>(rows: Seq<D>) -> Seq<Seq<char>>
    decreases rows.len(),
{
    if rows.len() == 0 {
        Seq::empty()
    } else {
        point_keys(rows.drop_last()).push(rows.last().key_spec())
    }
}

/// One scatter datum can be loaded: both dimensions scale and its key is
/// one of the view's keys.
pub open spec fn scatter_row_ok<D: PointDatum>(
    xs: &ViewScale,
    ys: &ViewScale,
    keys: Seq<Seq<char>>,
    d: D,
) -> bool {
    &&& point_x_ok(xs, d)
    &&& point_y_ok(ys, d)
    &&& keys.contains(d.key_spec())
}

/// Each point is colored by its datum's key: the palette entry of the
/// key's first index, cycling through the palette.
pub open spec fn scatter_colors_ok<D: PointDatum>(
    rows: Seq<D>,
    keys: Seq<Seq<char>>,
    colors: Seq<Color>,
    pts: Seq<ScatterPoint>,
) -> bool {
    forall|i: int, j: int|
        #![trigger pts[i], keys[j]]
        0 <= i < pts.len() && i < rows.len() && 0 <= j < keys.len() && keys[j]
            == rows[i].key_spec() && (forall|k: int| 0 <= k < j ==> keys[k] != rows[i].key_spec())
            ==> pts[i].color_val() == colors[j % colors.len() as int].hexv()
}

/// A view that represents data as a scatter plot.
pub struct ScatterView {
    labels_visible: bool,
    label_position: PointLabelPosition,
    marker_type: MarkerType,
    entries: Vec<ScatterPoint>,
    colors: Vec<Color>,
    keys: Vec<String>,
    x_scale: Option<ViewScale>,
    y_scale: Option<ViewScale>,
}

impl ScatterView {
    pub closed spec fn keys_view(&self) -> Seq<Seq<char>> {
        strs(self.keys@)
    }

    pub closed spec fn colors_view(&self) -> Seq<Color> {
        self.colors@
    }

    pub closed spec fn points_view(&self) -> Seq<ScatterPoint> {
        self.entries@
    }

    pub closed spec fn x_scale_view(&self) -> Option<ViewScale> {
        self.x_scale
    }

    pub closed spec fn y_scale_view(&self) -> Option<ViewScale> {
        self.y_scale
    }

    pub closed spec fn wf(&self) -> bool {
        &&& (self.x_scale matches Some(s) ==> s.wf())
        &&& (self.y_scale matches Some(s) ==> s.wf())
        &&& self.colors@.len() >= 1
        &&& self.keys@.len() <= 0x10_0000
    }

    /// Create a new empty instance of the view.
    pub fn new() -> (v: ScatterView)
        ensures
            v.wf(),
            v.x_scale_view() is None,
            v.y_scale_view() is None,
            v.keys_view() == Seq::<Seq<char>>::empty(),
    {
        let v = ScatterView {
            labels_visible: true,
            label_position: PointLabelPosition::NW,
            marker_type: MarkerType::Circle,
            entries: Vec::new(),
            keys: Vec::new(),
            colors: Color::color_scheme_10(),
            x_scale: None,
            y_scale: None,
        };
        proof {
            assert(v.keys_view() =~= Seq::<Seq<char>>::empty());
        }
        v
    }

    /// Set the scale for the X dimension.
    pub fn set_x_scale(self, scale: ViewScale) -> (v: ScatterView)
        requires
            self.wf(),
            scale.wf(),
        ensures
            v.wf(),
            v.x_scale_view() == Some(scale),
            v.y_scale_view() == self.y_scale_view(),
    {
        let mut me = self;
        me.x_scale = Some(scale);
        me
    }

    /// Set the scale for the Y dimension.
    pub fn set_y_scale(self, scale: ViewScale) -> (v: ScatterView)
        requires
            self.wf(),
            scale.wf(),
        ensures
            v.wf(),
            v.y_scale_view() == Some(scale),
            v.x_scale_view() == self.x_scale_view(),
    {
        let mut me = self;
        me.y_scale = Some(scale);
        me
    }

    /// Set the series keys of the view.
    pub fn set_keys(self, keys: Vec<String>) -> (v: ScatterView)
        requires
            self.wf(),
            keys@.len() <= 0x10_0000,
        ensures
            v.wf(),
            v.keys_view() == strs(keys@),
    {
        let mut me = self;
        me.keys = keys;
        me
    }

    /// Set the marker drawn at each point.
    pub fn set_marker_type(self, marker_type: MarkerType) -> (v: ScatterView)
        requires
            self.wf(),
        ensures
            v.wf(),
    {
        let mut me = self;
        me.marker_type = marker_type;
        me
    }

    /// Hide labels on the chart.
    pub fn do_not_show_labels(self) -> (v: ScatterView)
        requires
            self.wf(),
        ensures
            v.wf(),
    {
        let mut me = self;
        me.labels_visible = false;
        me
    }

    /// The loaded points.
    pub fn points(&self) -> (r: &Vec<ScatterPoint>)
        ensures
            r@ == self.points_view(),
    {
        &self.entries
    }

    /// Load and process a dataset of points: scale each datum's two
    /// coordinates (band-scale dimensions land at band centers) and color
    /// each point by its key's palette entry.
    #[verifier::loop_isolation(false)]
    pub fn load_data<D: PointDatum>(self, data: &Vec<D>) -> (r: Result<ScatterView, DataError>)
        requires
            self.wf(),
            data@.len() <= 0x10_0000,
        ensures
            (r == Err::<ScatterView, DataError>(DataError::MissingScale)) <==> (self
                .x_scale_view() is None || self.y_scale_view() is None),
            r is Ok <==> ({
                let keys = if self.keys_view().len() == 0 {
                    dedup_first(point_keys(data@))
                } else {
                    self.keys_view()
                };
                &&& self.x_scale_view() is Some
                &&& self.y_scale_view() is Some
                &&& forall|i: int|
                    0 <= i < data@.len() ==> scatter_row_ok(
                        &self.x_scale_view()->Some_0,
                        &self.y_scale_view()->Some_0,
                        keys,
                        #[trigger] data@[i],
                    )
            }),
            r matches Ok(v) ==> ({
                let keys = if self.keys_view().len() == 0 {
                    dedup_first(point_keys(data@))
                } else {
                    self.keys_view()
                };
                &&& self.x_scale_view() matches Some(xs)
                &&& self.y_scale_view() matches Some(ys)
                &&& v.keys_view() == keys
                &&& v.points_view().len() == data@.len()
                &&& (forall|i: int|
                    0 <= i < data@.len() ==> point_pos_ok(
                        &xs,
                        data@[i],
                        false,
                        (#[trigger] v.points_view()[i]).x_val(),
                    ))
                &&& (forall|i: int|
                    0 <= i < data@.len() ==> point_pos_ok(
                        &ys,
                        data@[i],
                        true,
                        (#[trigger] v.points_view()[i]).y_val(),
                    ))
                &&& scatter_colors_ok(data@, keys, self.colors_view(), v.points_view())
                &&& v.wf()
            }),
    {
        if self.x_scale.is_none() || self.y_scale.is_none() {
            return Err(DataError::MissingScale);
        }
        let mut me = self;
        if me.keys.len() == 0 {
            let extracted = extract_point_keys(data);
            proof {
                crate::scales::band::lemma_dedup_first_props(point_keys(data@));
                lemma_point_keys_len(data@);
            }
            me.keys = extracted;
        }
        let ghost keysv = strs(me.keys@);
        let nd = data.len();
        let nc = me.colors.len();
        let mut points: Vec<ScatterPoint> = Vec::new();
        let mut i: usize = 0;
        while i < nd
            invariant
                0 <= i <= nd,
                nd == data@.len(),
                points@.len() == i,
                keysv == strs(me.keys@),
                nc == me.colors@.len(),
                nc >= 1,
                me.colors@ == self.colors_view(),
                me.x_scale matches Some(xs) && xs.wf(),
                me.y_scale matches Some(ys) && ys.wf(),
                me.x_scale == self.x_scale_view(),
                me.y_scale == self.y_scale_view(),
                forall|k: int|
                    0 <= k < i ==> scatter_row_ok(
                        &self.x_scale_view()->Some_0,
                        &self.y_scale_view()->Some_0,
                        keysv,
                        #[trigger] data@[k],
                    ),
                forall|k: int|
                    0 <= k < i ==> point_pos_ok(
                        &self.x_scale_view()->Some_0,
                        data@[k],
                        false,
                        (#[trigger] points@[k]).x_val(),
                    ),
                forall|k: int|
                    0 <= k < i ==> point_pos_ok(
                        &self.y_scale_view()->Some_0,
                        data@[k],
                        true,
                        (#[trigger] points@[k]).y_val(),
                    ),
                scatter_colors_ok(data@, keysv, self.colors_view(), points@),
            decreases nd - i,
        {
            let d = &data[i];
            let px = match scale_point_x(me.x_scale.as_ref().unwrap(), d) {
                Ok(p) => p,
                Err(e) => {
                    proof {
                        assert(!point_x_ok(&self.x_scale_view()->Some_0, data@[i as int]));
                    }
                    return Err(e);
                },
            };
            let py = match scale_point_y(me.y_scale.as_ref().unwrap(), d) {
                Ok(p) => p,
                Err(e) => {
                    proof {
                        assert(!point_y_ok(&self.y_scale_view()->Some_0, data@[i as int]));
                    }
                    return Err(e);
                },
            };
            let key = d.get_key();
            let kix = match find_str(&me.keys, &key) {
                Some(k) => k,
                None => {
                    proof {
                        assert(!keysv.contains(data@[i as int].key_spec()));
                    }
                    return Err(DataError::UnknownKey);
                },
            };
            let color = me.colors[kix % nc].as_hex();
            proof {
                assert(keysv[kix as int] == data@[i as int].key_spec());
                assert(keysv.contains(data@[i as int].key_spec()));
            }
            let xl = if d.is_x_category() {
                PointLabel::Text(d.get_x_category())
            } else {
                PointLabel::Number(d.get_x_number())
            };
            let point = ScatterPoint::new(
                px,
                py,
                me.marker_type,
                5,
                xl,
                PointLabel::Number(d.get_y()),
                me.label_position,
                me.labels_visible,
                true,
                color,
            );
            proof {
                assert forall|j: int|
                    0 <= j < keysv.len() && keysv[j] == data@[i as int].key_spec() && (forall|
                        k2: int,
                    | 0 <= k2 < j ==> keysv[k2] != data@[i as int].key_spec()) implies point
                    .color_val() == self.colors_view()[j % self.colors_view().len() as int].hexv()
                by {
                    if j < kix as int {
                        assert(keysv[j] != data@[i as int].key_spec());
                    } else if j > kix as int {
                        assert(keysv[kix as int] != data@[i as int].key_spec());
                    }
                }
                let newpts = points@.push(point);
                assert forall|i2: int, j: int|
                    #![trigger newpts[i2], keysv[j]]
                    0 <= i2 < newpts.len() && i2 < data@.len() && 0 <= j < keysv.len() && keysv[j]
                        == data@[i2].key_spec() && (forall|k: int|
                        0 <= k < j ==> keysv[k] != data@[i2].key_spec()) implies newpts[i2]
                    .color_val() == self.colors_view()[j % self.colors_view().len() as int].hexv()
                by {
                    if i2 < points@.len() {
                        assert(newpts[i2] == points@[i2]);
                    } else {
                        assert(newpts[i2] == point);
                    }
                }
            }
            points.push(point);
            i = i + 1;
        }
        me.entries = points;
        proof {
            let keys = if self.keys_view().len() == 0 {
                dedup_first(point_keys(data@))
            } else {
                self.keys_view()
            };
            assert(keysv == keys);
            assert(me.keys_view() == keys);
            assert(me.points_view() == points@);
        }
        Ok(me)
    }
}

/// Scale a datum's X dimension: band centers for categories, the affine
/// map for numbers. An error when the datum's kind does not match the
/// scale, the category is unknown, or the value is out of exact range.
pub(crate) fn scale_point_x<D: PointDatum>(scale: &ViewScale, d: &D) -> (r: Result<Rat, DataError>)
    requires
        scale.wf(),
    ensures
        r matches Ok(p) ==> p.wf() && point_pos_ok(scale, *d, false, p@),
        r is Ok <==> point_x_ok(scale, *d),
        r != Err::<Rat, DataError>(DataError::MissingScale),
{
    match scale {
        ViewScale::Band(b) => {
            if !d.is_x_category() {
                return Err(DataError::WrongXScale);
            }
            let cat = d.get_x_category();
            match b.center(&cat) {
                Ok(p) => Ok(p),
                Err(_) => Err(DataError::UnknownCategory),
            }
        },
        ViewScale::Linear(l) => {
            if d.is_x_category() {
                return Err(DataError::WrongXScale);
            }
            let x = d.get_x_number();
            if !(x.check_wf() && val_ok_exec(&x)) {
                proof {
                    assert(!crate::scales::linear::val_ok(x@));
                }
                return Err(DataError::ValueOutOfRange);
            }
            Ok(l.scale(&x))
        },
    }
}

/// Scale a datum's Y dimension, which is always numeric.
pub(crate) fn scale_point_y<D: PointDatum>(scale: &ViewScale, d: &D) -> (r: Result<Rat, DataError>)
    requires
        scale.wf(),
    ensures
        r matches Ok(p) ==> p.wf() && point_pos_ok(scale, *d, true, p@),
        r is Ok <==> point_y_ok(scale, *d),
        r != Err::<Rat, DataError>(DataError::MissingScale),
{
    match scale {
        ViewScale::Band(_) => Err(DataError::WrongYScale),
        ViewScale::Linear(l) => {
            let y = d.get_y();
            if !(y.check_wf() && val_ok_exec(&y)) {
                proof {
                    assert(!crate::scales::linear::val_ok(y@));
                }
                return Err(DataError::ValueOutOfRange);
            }
            Ok(l.scale(&y))
        },
    }
}

/// Extract the list of keys from point data, keeping first occurrences.
pub(crate) fn extract_point_keys<D: PointDatum>(data: &Vec<D>) -> (r: Vec<String>)
    requires
        data@.len() <= 0x10_0000,
    ensures
        strs(r@) == dedup_first(point_keys(data@)),
        r@.len() <= data@.len(),
{
    let mut out: Vec<String> = Vec::new();
    let mut i: usize = 0;
    while i < data.len()
        invariant
            0 <= i <= data@.len(),
            strs(out@) == dedup_first(point_keys(data@.take(i as int))),
            out@.len() <= i,
        decreases data@.len() - i,
    {
        let k = data[i].get_key();
        let ghost before = strs(out@);
        let dup = crate::scales::band::vec_contains_str(&out, &k);
        if !dup {
            out.push(k);
        }
        proof {
            let pre = data@.take((i + 1) as int);
            assert(pre.drop_last() =~= data@.take(i as int));
            let rk = point_keys(pre);
            assert(rk.drop_last() =~= point_keys(data@.take(i as int)));
            assert(rk.last() == data@[i as int].key_spec());
            if dup {
                assert(strs(out@) == dedup_first(rk));
            } else {
                assert(strs(out@) =~= before.push(k@));
                assert(strs(out@) == dedup_first(rk));
            }
        }
        i = i + 1;
    }
    proof {
        assert(data@.take(data@.len() as int) =~= data@);
    }
    out
}

/// The key sequence has one entry per row: that row's key.
pub(crate) proof fn lemma_point_keys_len<D: PointDatum>(rows: Seq<D>)
    ensures
        point_keys(rows).len() == rows.len(),
        forall|i: int| 0 <= i < rows.len() ==> #[trigger] point_keys(rows)[i] == rows[i].key_spec(),
    decreases rows.len(),
{
    if rows.len() > 0 {
        lemma_point_keys_len(rows.drop_last());
    }
}

} // verus!
