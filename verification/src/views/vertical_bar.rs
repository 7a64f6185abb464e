//! Stacking: group raw bar rows by category and key, accumulate a
//! running total per category, and turn each cumulative boundary into a
//! pixel block through the Y scale.
//!
//! Rows are grouped in key order first (stacks render in the
//! caller-specified key sequence), row order within a key. A category
//! whose key is not in the key list contributes no blocks. When the Y
//! range is descending the accumulation direction flips, so blocks still
//! stack growing from the baseline.

use vstd::prelude::*;
use vstd::string::StrSliceExecFns;
use crate::colors::Color;
use crate::chart::Orientation;
use crate::components::bar::{Bar, BarBlock, BarLabelPosition};
use crate::components::legend::{LegendEntry, LegendMarkerType};
use crate::rational::{
    lemma_q_add_congruence, lemma_q_eq_trans, q_add, q_eq, q_int, q_wf, Rat, Ratio,
};
use crate::scales::band::{dedup_first, strs, ScaleBand};
use crate::scales::linear::{
    lemma_linear_scale_congruence, lemma_linear_scale_q_wf, lemma_linear_wf, linear_scale_q,
    val_ok, val_ok_exec, ScaleLinear,
};
use crate::views::datum::BarDatum;
use crate::views::DataError;

verus! {

/// The values of the rows with key `k` and category `c`, in row order.
pub open spec fn row_vals<D: BarDatum>(rows: Seq<D>, k: Seq<char>, c: Seq<char>) -> Seq<Ratio>
    decreases rows.len(),
{
    if rows.len() == 0 {
        Seq::empty()
    } else {
        let rest = row_vals(rows.drop_last(), k, c);
        if rows.last().key_spec() == k && rows.last().category_spec() == c {
            rest.push(rows.last().value_spec())
        } else {
            rest
        }
    }
}

/// The values stacked for category `c`: key order first, row order
/// within a key.
pub open spec fn stack_values<D: BarDatum>(
    rows: Seq<D>,
    keys: Seq<Seq<char>>,
    c: Seq<char>,
) -> Seq<Ratio>
    decreases keys.len(),
{
    if keys.len() == 0 {
        Seq::empty()
    } else {
        stack_values(rows, keys.drop_last(), c) + row_vals(rows, keys.last(), c)
    }
}

/// The key index of each row with key `k` and category `c`.
pub open spec fn row_keyidx<D: BarDatum>(
    rows: Seq<D>,
    k: Seq<char>,
    c: Seq<char>,
    ki: int,
) -> Seq<int>
    decreases rows.len(),
{
    if rows.len() == 0 {
        Seq::empty()
    } else {
        let rest = row_keyidx(rows.drop_last(), k, c, ki);
        if rows.last().key_spec() == k && rows.last().category_spec() == c {
            rest.push(ki)
        } else {
            rest
        }
    }
}

/// The key index of each stacked block of category `c`, aligned with
/// `stack_values`.
pub open spec fn stack_keyidx<D: BarDatum>(
    rows: Seq<D>,
    keys: Seq<Seq<char>>,
    c: Seq<char>,
) -> Seq<int>
    decreases keys.len(),
{
    if keys.len() == 0 {
        Seq::empty()
    } else {
        stack_keyidx(rows, keys.drop_last(), c) + row_keyidx(
            rows,
            keys.last(),
            c,
            keys.len() - 1,
        )
    }
}

/// The categories of the rows with key `k`, in row order.
pub open spec fn row_cats<D: BarDatum>(rows: Seq<D>, k: Seq<char>) -> Seq<Seq<char>>
    decreases rows.len(),
{
    if rows.len() == 0 {
        Seq::empty()
    } else {
        let rest = row_cats(rows.drop_last(), k);
        if rows.last().key_spec() == k {
            rest.push(rows.last().category_spec())
        } else {
            rest
        }
    }
}

/// The categories seen while traversing keys in order and rows within
/// each key; the bar list holds their first occurrences.
pub open spec fn trav_cats<D: BarDatum>(rows: Seq<D>, keys: Seq<Seq<char>>) -> Seq<Seq<char>>
    decreases keys.len(),
{
    if keys.len() == 0 {
        Seq::empty()
    } else {
        trav_cats(rows, keys.drop_last()) + row_cats(rows, keys.last())
    }
}

/// The sum of a sequence of rationals.
pub open spec fn q_sum(vs: Seq<Ratio>) -> Ratio
    decreases vs.len(),
{
    if vs.len() == 0 {
        q_int(0)
    } else {
        q_add(q_sum(vs.drop_last()), vs.last())
    }
}

/// The keys of a sequence of rows, in row order.
pub open spec fn row_keys<D: BarDatum>(rows: Seq<D>) -> Seq<Seq<char>>
    decreases rows.len(),
{
    if rows.len() == 0 {
        Seq::empty()
    } else {
        row_keys(rows.drop_last()).push(rows.last().key_spec())
    }
}

/// The reduced representative of the running total after each stacked
/// value: exactly the number the loader's accumulator holds, since every
/// arithmetic operation returns the reduced form.
pub open spec fn sum_reps(vs: Seq<Ratio>) -> Ratio
    decreases vs.len(),
{
    if vs.len() == 0 {
        Ratio { n: 0, d: 1 }
    } else {
        crate::rational::q_reduced(q_add(sum_reps(vs.drop_last()), vs.last()))
    }
}

/// Every running total of a stack stays within the exact range the Y
/// scale accepts.
pub open spec fn stack_sums_ok(vs: Seq<Ratio>) -> bool {
    forall|i: int| 0 <= i <= vs.len() ==> val_ok(#[trigger] sum_reps(vs.take(i)))
}

/// Everything the loader needs to succeed: every row with a listed key
/// holds a value in the exact range, every stacked category is in the
/// band domain, and every running total stays in range.
pub open spec fn load_ok<D: BarDatum>(rows: Seq<D>, keys: Seq<Seq<char>>, band: ScaleBand) -> bool {
    &&& forall|di: int|
        0 <= di < rows.len() && keys.contains((#[trigger] rows[di]).key_spec()) ==> val_ok(
            rows[di].value_spec(),
        )
    &&& forall|ci: int|
        0 <= ci < bar_cats(rows, keys).len() ==> band.dom().contains(
            #[trigger] bar_cats(rows, keys)[ci],
        )
    &&& forall|ci: int|
        0 <= ci < bar_cats(rows, keys).len() ==> stack_sums_ok(
            stack_values(rows, keys, #[trigger] bar_cats(rows, keys)[ci]),
        )
}

/// The view values of a group of collected (key index, value) pairs.
pub open spec fn pair_vals(s: Seq<(usize, Rat)>) -> Seq<Ratio> {
    s.map_values(|p: (usize, Rat)| p.1@)
}

/// The key indices of a group of collected pairs.
pub open spec fn pair_keys(s: Seq<(usize, Rat)>) -> Seq<int> {
    s.map_values(|p: (usize, Rat)| p.0 as int)
}

/// A view that represents data as vertical bars, stacked by key.
pub struct VerticalBarView {
    label_position: BarLabelPosition,
    labels_visible: bool,
    rounding_precision: Option<usize>,
    entries: Vec<Bar>,
    keys: Vec<String>,
    colors: Vec<Color>,
    key_colors: Vec<String>,
    x_scale: Option<ScaleBand>,
    y_scale: Option<ScaleLinear>,
    custom_data_label: String,
}

impl VerticalBarView {
    pub closed spec fn keys_view(&self) -> Seq<Seq<char>> {
        strs(self.keys@)
    }

    pub closed spec fn colors_view(&self) -> Seq<Color> {
        self.colors@
    }

    pub closed spec fn key_colors_view(&self) -> Seq<Seq<char>> {
        strs(self.key_colors@)
    }

    pub closed spec fn bars_view(&self) -> Seq<Bar> {
        self.entries@
    }

    pub closed spec fn x_scale_view(&self) -> Option<ScaleBand> {
        self.x_scale
    }

    pub closed spec fn y_scale_view(&self) -> Option<ScaleLinear> {
        self.y_scale
    }

    pub closed spec fn label_position_val(&self) -> BarLabelPosition {
        self.label_position
    }

    pub closed spec fn labels_visible_val(&self) -> bool {
        self.labels_visible
    }

    pub closed spec fn custom_label_val(&self) -> Seq<char> {
        self.custom_data_label@
    }

    /// Scales, when present, are well-formed; the palette is never
    /// empty; lengths stay within the grouping loops' bounds.
    pub closed spec fn wf(&self) -> bool {
        &&& (self.x_scale matches Some(b) ==> b.wf())
        &&& (self.y_scale matches Some(l) ==> l.wf())
        &&& self.colors@.len() >= 1
        &&& self.keys@.len() <= 0x10_0000
    }

    /// Create a new empty instance of the view.
    pub fn new() -> (v: VerticalBarView)
        ensures
            v.wf(),
            v.keys_view() == Seq::<Seq<char>>::empty(),
            v.bars_view() == Seq::<Bar>::empty(),
            v.x_scale_view() is None,
            v.y_scale_view() is None,
            v.label_position_val() == BarLabelPosition::EndOutside,
            v.labels_visible_val(),
    {
        let v = VerticalBarView {
            label_position: BarLabelPosition::EndOutside,
            labels_visible: true,
            rounding_precision: None,
            entries: Vec::new(),
            keys: Vec::new(),
            colors: Color::color_scheme_10(),
            key_colors: Vec::new(),
            x_scale: None,
            y_scale: None,
            custom_data_label: String::new(),
        };
        proof {
            assert(v.keys_view() =~= Seq::<Seq<char>>::empty());
        }
        v
    }

    /// Set the scale for the X dimension.
    pub fn set_x_scale(self, scale: ScaleBand) -> (v: VerticalBarView)
        requires
            self.wf(),
            scale.wf(),
        ensures
            v.wf(),
            v.x_scale_view() == Some(scale),
            v.y_scale_view() == self.y_scale_view(),
            v.keys_view() == self.keys_view(),
    {
        let mut me = self;
        me.x_scale = Some(scale);
        me
    }

    /// Set the scale for the Y dimension.
    pub fn set_y_scale(self, scale: ScaleLinear) -> (v: VerticalBarView)
        requires
            self.wf(),
            scale.wf(),
        ensures
            v.wf(),
            v.y_scale_view() == Some(scale),
            v.x_scale_view() == self.x_scale_view(),
            v.keys_view() == self.keys_view(),
    {
        let mut me = self;
        me.y_scale = Some(scale);
        me
    }

    /// Set the keys of a stacked bar chart, in the order the stacks
    /// should render.
    pub fn set_keys(self, keys: Vec<String>) -> (v: VerticalBarView)
        requires
            self.wf(),
            keys@.len() <= 0x10_0000,
        ensures
            v.wf(),
            v.keys_view() == strs(keys@),
            v.x_scale_view() == self.x_scale_view(),
            v.y_scale_view() == self.y_scale_view(),
    {
        let mut me = self;
        me.keys = keys;
        me
    }

    /// Set the positioning of the bar labels.
    pub fn set_label_position(self, label_position: BarLabelPosition) -> (v: VerticalBarView)
        requires
            self.wf(),
        ensures
            v.wf(),
            v.label_position_val() == label_position,
    {
        let mut me = self;
        me.label_position = label_position;
        me
    }

    /// Set the color palette of the view.
    pub fn set_colors(self, colors: Vec<Color>) -> (v: VerticalBarView)
        requires
            self.wf(),
            colors@.len() >= 1,
        ensures
            v.wf(),
            v.colors_view() == colors@,
    {
        let mut me = self;
        me.colors = colors;
        me
    }

    /// Set labels visibility.
    pub fn set_label_visibility(self, label_visibility: bool) -> (v: VerticalBarView)
        requires
            self.wf(),
        ensures
            v.wf(),
            v.labels_visible_val() == label_visibility,
    {
        let mut me = self;
        me.labels_visible = label_visibility;
        me
    }

    /// Set a custom label for a dataset without keys.
    pub fn set_custom_data_label(self, label: String) -> (v: VerticalBarView)
        requires
            self.wf(),
        ensures
            v.wf(),
            v.custom_label_val() == label@,
    {
        let mut me = self;
        me.custom_data_label = label;
        me
    }

    /// Set the precision to which value labels should be rounded.
    pub fn set_label_rounding_precision(self, nr_of_digits: usize) -> (v: VerticalBarView)
        requires
            self.wf(),
        ensures
            v.wf(),
    {
        let mut me = self;
        me.rounding_precision = Some(nr_of_digits);
        me
    }

    /// The loaded bars.
    pub fn bars(&self) -> (r: &Vec<Bar>)
        ensures
            r@ == self.bars_view(),
    {
        &self.entries
    }

    /// The keys of the view.
    pub fn keys(&self) -> (r: &Vec<String>)
        ensures
            strs(r@) == self.keys_view(),
    {
        &self.keys
    }
}


/// One stacked block is exact: its value is the `bi`-th stacked value,
/// its color is the block's key's palette color, and its bounds are the
/// scaled cumulative sums on either side — swapped when the Y range is
/// descending, so blocks grow from the baseline.
pub open spec fn stacked_block_ok(
    vs: Seq<Ratio>,
    kidx: Seq<int>,
    colors: Seq<Color>,
    lin: ScaleLinear,
    b: BarBlock,
    bi: int,
) -> bool {
    let lo = linear_scale_q(
        lin.dom()[0],
        lin.dom()[1],
        lin.rng().0,
        lin.rng().1,
        q_sum(vs.take(bi)),
    );
    let hi = linear_scale_q(
        lin.dom()[0],
        lin.dom()[1],
        lin.rng().0,
        lin.rng().1,
        q_sum(vs.take(bi + 1)),
    );
    &&& b.value_val() == vs[bi]
    &&& b.color_val() == colors[kidx[bi] % colors.len() as int].hexv()
    &&& (if lin.rng().0 > lin.rng().1 {
        q_eq(b.start_val(), hi) && q_eq(b.end_val(), lo)
    } else {
        q_eq(b.start_val(), lo) && q_eq(b.end_val(), hi)
    })
}

/// One bar is exact: it carries its category, sits at the category's
/// band offset with the band's width, and stacks one exact block per
/// collected (key, value) pair.
pub open spec fn bar_ok<D: BarDatum>(
    rows: Seq<D>,
    keys: Seq<Seq<char>>,
    colors: Seq<Color>,
    band: ScaleBand,
    lin: ScaleLinear,
    c: Seq<char>,
    bar: Bar,
) -> bool {
    let vs = stack_values(rows, keys, c);
    let kidx = stack_keyidx(rows, keys, c);
    &&& bar.category_val() == c
    &&& bar.orientation_val() == Orientation::Vertical
    &&& q_eq(
        bar.width_val(),
        crate::scales::band::band_bandwidth_q(
            band.dom().len() as int,
            band.rng().0,
            band.rng().1,
            band.pad_in(),
            band.pad_out(),
        ),
    )
    &&& forall|j: int|
        0 <= j < band.dom().len() && band.dom()[j] == c ==> q_eq(
            bar.offset_val(),
            band.offset_spec(j),
        )
    &&& bar.blocks_view().len() == vs.len()
    &&& forall|bi: int|
        0 <= bi < vs.len() ==> stacked_block_ok(
            vs,
            kidx,
            colors,
            lin,
            #[trigger] bar.blocks_view()[bi],
            bi,
        )
}

/// The categories of the loaded bars, in the order the grouping walks
/// them: keys first, rows within a key, first occurrence kept.
pub open spec fn bar_cats<D: BarDatum>(rows: Seq<D>, keys: Seq<Seq<char>>) -> Seq<Seq<char>> {
    dedup_first(trav_cats(rows, keys))
}

/// The categories collected after the grouping has fully processed the
/// first `ki` keys and, for key `ki`, the first `di` rows.
pub open spec fn sofar_cats<D: BarDatum>(
    rows: Seq<D>,
    keys: Seq<Seq<char>>,
    ki: int,
    di: int,
) -> Seq<Seq<char>> {
    trav_cats(rows, keys.take(ki)) + (if ki < keys.len() {
        row_cats(rows.take(di), keys[ki])
    } else {
        Seq::empty()
    })
}

/// The values collected so far for category `c`.
pub open spec fn sofar_vals<D: BarDatum>(
    rows: Seq<D>,
    keys: Seq<Seq<char>>,
    ki: int,
    di: int,
    c: Seq<char>,
) -> Seq<Ratio> {
    stack_values(rows, keys.take(ki), c) + (if ki < keys.len() {
        row_vals(rows.take(di), keys[ki], c)
    } else {
        Seq::empty()
    })
}

/// The key indices collected so far for category `c`.
pub open spec fn sofar_kidx<D: BarDatum>(
    rows: Seq<D>,
    keys: Seq<Seq<char>>,
    ki: int,
    di: int,
    c: Seq<char>,
) -> Seq<int> {
    stack_keyidx(rows, keys.take(ki), c) + (if ki < keys.len() {
        row_keyidx(rows.take(di), keys[ki], c, ki)
    } else {
        Seq::empty()
    })
}

/// Extract the list of keys from the data, keeping the first occurrence
/// of each key in row order.
fn extract_keys<D: BarDatum>(data: &Vec<D>) -> (r: Vec<String>)
    requires
        data@.len() <= 0x10_0000,
    ensures
        strs(r@) == dedup_first(row_keys(data@)),
        r@.len() <= data@.len(),
{
    let mut out: Vec<String> = Vec::new();
    let mut i: usize = 0;
    while i < data.len()
        invariant
            0 <= i <= data@.len(),
            strs(out@) == dedup_first(row_keys(data@.take(i as int))),
            out@.len() <= i,
        decreases data@.len() - i,
    {
        let k = data[i].get_key();
        let ghost before = strs(out@);
        let dup = crate::scales::band::vec_contains_str(&out, &k);
        if !dup {
            out.push(k);
        }
        proof {
            let pre = data@.take((i + 1) as int);
            assert(pre.drop_last() =~= data@.take(i as int));
            assert(row_keys(pre) == row_keys(data@.take(i as int)).push(
                data@[i as int].key_spec(),
            ));
            let rk = row_keys(pre);
            assert(rk.drop_last() =~= row_keys(data@.take(i as int)));
            assert(rk.last() == data@[i as int].key_spec());
            if dup {
                assert(strs(out@) == dedup_first(rk));
            } else {
                assert(strs(out@) =~= before.push(k@));
                assert(strs(out@) == dedup_first(rk));
            }
        }
        i = i + 1;
    }
    proof {
        assert(data@.take(data@.len() as int) =~= data@);
    }
    out
}

/// Find a category's index in the collected list.
fn find_cat(cats: &Vec<String>, c: &String) -> (r: Option<usize>)
    ensures
        r matches Some(i) ==> i < cats@.len() && cats@[i as int]@ == c@,
        r is None <==> !strs(cats@).contains(c@),
{
    let n = cats.len();
    let mut i: usize = 0;
    while i < n
        invariant
            0 <= i <= n,
            n == cats@.len(),
            forall|k: int| 0 <= k < i ==> strs(cats@)[k] != c@,
        decreases n - i,
    {
        if cats[i] == *c {
            proof {
                assert(strs(cats@)[i as int] == c@);
            }
            return Some(i);
        }
        i = i + 1;
    }
    proof {
        if strs(cats@).contains(c@) {
            let k = choose|k: int| 0 <= k < strs(cats@).len() && strs(cats@)[k] == c@;
            assert(false);
        }
    }
    None
}

impl VerticalBarView {
    /// Load and process a dataset of bar rows: group by category in
    /// key-then-row order, stack cumulative sums through the Y scale, and
    /// position each bar at its category's band offset.
    #[verifier::loop_isolation(false)]
    pub fn load_data<D: BarDatum>(self, data: &Vec<D>) -> (r: Result<VerticalBarView, DataError>)
        requires
            self.wf(),
            data@.len() <= 0x10_0000,
        ensures
            (r == Err::<VerticalBarView, DataError>(DataError::WrongXScale)) <==> self
                .x_scale_view() is None,
            (r == Err::<VerticalBarView, DataError>(DataError::WrongYScale)) <==> (self
                .x_scale_view() is Some && !(self.y_scale_view() matches Some(l) && l.dom().len()
                == 2)),
            r matches Err(e) ==> (e == DataError::WrongXScale || e == DataError::WrongYScale || e
                == DataError::UnknownCategory || e == DataError::ValueOutOfRange),
            r is Ok <==> ({
                let keys = if self.keys_view().len() == 0 {
                    dedup_first(row_keys(data@))
                } else {
                    self.keys_view()
                };
                &&& self.x_scale_view() is Some
                &&& self.y_scale_view() is Some
                &&& self.y_scale_view()->Some_0.dom().len() == 2
                &&& load_ok(data@, keys, self.x_scale_view()->Some_0)
            }),
            r matches Ok(v) ==> ({
                let keys = if self.keys_view().len() == 0 {
                    dedup_first(row_keys(data@))
                } else {
                    self.keys_view()
                };
                let cats = bar_cats(data@, keys);
                &&& self.x_scale_view() matches Some(band) && self.y_scale_view() matches Some(lin)
                    && lin.dom().len() == 2 && v.x_scale_view() == Some(band)
                    && v.y_scale_view() == Some(lin) && v.keys_view() == keys
                    && v.bars_view().len() == cats.len() && (forall|ci: int|
                    0 <= ci < cats.len() ==> bar_ok(
                        data@,
                        keys,
                        self.colors_view(),
                        band,
                        lin,
                        cats[ci],
                        #[trigger] v.bars_view()[ci],
                    ))
                &&& v.wf()
            }),
    {
        if self.x_scale.is_none() {
            return Err(DataError::WrongXScale);
        }
        let y_ok = match &self.y_scale {
            Some(l) => l.domain().len() == 2,
            None => false,
        };
        if !y_ok {
            return Err(DataError::WrongYScale);
        }
        let mut me = self;
        if me.keys.len() == 0 {
            let extracted = extract_keys(data);
            proof {
                crate::scales::band::lemma_dedup_first_props(row_keys(data@));
                lemma_row_keys_len(data@);
            }
            me.keys = extracted;
        }
        let ghost keysv = strs(me.keys@);
        let nk = me.keys.len();
        let nc = me.colors.len();

        // palette color of each key, cycling
        let mut key_colors: Vec<String> = Vec::new();
        let mut ki: usize = 0;
        while ki < nk
            invariant
                0 <= ki <= nk,
                nk == me.keys@.len(),
                nc == me.colors@.len(),
                nc >= 1,
                key_colors@.len() == ki,
                forall|x: int|
                    0 <= x < ki ==> (#[trigger] key_colors@[x])@ == me.colors@[x % nc as int]
                        .hexv(),
            decreases nk - ki,
        {
            key_colors.push(me.colors[ki % nc].as_hex());
            ki = ki + 1;
        }

        // group rows by category, walking keys in order and rows within
        // each key
        let mut cats: Vec<String> = Vec::new();
        let mut groups: Vec<Vec<(usize, Rat)>> = Vec::new();
        let nd = data.len();
        let mut k2: usize = 0;
        while k2 < nk
            invariant
                0 <= k2 <= nk,
                nk == me.keys@.len(),
                nd == data@.len(),
                keysv == strs(me.keys@),
                keysv.len() == nk,
                strs(cats@) == dedup_first(sofar_cats(data@, keysv, k2 as int, 0)),
                forall|di: int, ki: int|
                    0 <= di < nd && 0 <= ki < k2 && (#[trigger] data@[di]).key_spec()
                        == #[trigger] keysv[ki] ==> val_ok(data@[di].value_spec()),
                groups@.len() == cats@.len(),
                forall|x: int|
                    0 <= x < cats@.len() ==> pair_vals(#[trigger] groups@[x]@) == sofar_vals(
                        data@,
                        keysv,
                        k2 as int,
                        0,
                        strs(cats@)[x],
                    ) && pair_keys(groups@[x]@) == sofar_kidx(
                        data@,
                        keysv,
                        k2 as int,
                        0,
                        strs(cats@)[x],
                    ),
                forall|x: int, y: int|
                    0 <= x < groups@.len() && 0 <= y < groups@[x]@.len() ==> (
                    #[trigger] groups@[x]@[y]).1.wf() && val_ok(groups@[x]@[y].1@)
                        && groups@[x]@[y].0 < nk,
            decreases nk - k2,
        {
            let key = me.keys[k2].clone();
            let mut di: usize = 0;
            while di < nd
                invariant
                    0 <= di <= nd,
                    0 <= k2 < nk,
                    nk == me.keys@.len(),
                    nd == data@.len(),
                    keysv == strs(me.keys@),
                    keysv.len() == nk,
                    key@ == keysv[k2 as int],
                    strs(cats@) == dedup_first(sofar_cats(data@, keysv, k2 as int, di as int)),
                    forall|d2: int, ki: int|
                        0 <= d2 < nd && 0 <= ki < k2 && (#[trigger] data@[d2]).key_spec()
                            == #[trigger] keysv[ki] ==> val_ok(data@[d2].value_spec()),
                    forall|d2: int|
                        0 <= d2 < di && (#[trigger] data@[d2]).key_spec() == keysv[k2 as int]
                            ==> val_ok(data@[d2].value_spec()),
                    groups@.len() == cats@.len(),
                    forall|x: int|
                        0 <= x < cats@.len() ==> pair_vals(#[trigger] groups@[x]@) == sofar_vals(
                            data@,
                            keysv,
                            k2 as int,
                            di as int,
                            strs(cats@)[x],
                        ) && pair_keys(groups@[x]@) == sofar_kidx(
                            data@,
                            keysv,
                            k2 as int,
                            di as int,
                            strs(cats@)[x],
                        ),
                    forall|x: int, y: int|
                        0 <= x < groups@.len() && 0 <= y < groups@[x]@.len() ==> (
                        #[trigger] groups@[x]@[y]).1.wf() && val_ok(groups@[x]@[y].1@)
                            && groups@[x]@[y].0 < nk,
                decreases nd - di,
            {
                let dkey = data[di].get_key();
                let ghost pre = data@.take((di + 1) as int);
                proof {
                    assert(pre.drop_last() =~= data@.take(di as int));
                    assert(pre.last() == data@[di as int]);
                }
                if dkey == key {
                    let v = data[di].get_value();
                    if !(v.check_wf() && val_ok_exec(&v)) {
                        proof {
                            assert(val_ok(v@) ==> v.wf());
                            assert(!val_ok(data@[di as int].value_spec()));
                            assert(keysv[k2 as int] == data@[di as int].key_spec());
                            assert(keysv.contains(data@[di as int].key_spec()));
                        }
                        return Err(DataError::ValueOutOfRange);
                    }
                    let c = data[di].get_category();
                    let ghost old_cats = strs(cats@);
                    let ghost old_groups = groups@;
                    proof {
                        crate::scales::band::lemma_dedup_first_props(
                            sofar_cats(data@, keysv, k2 as int, di as int),
                        );
                    }
                    let found = find_cat(&cats, &c);
                    let ghost was_found = found is Some;
                    let idx: usize = match found {
                        Some(i) => i,
                        None => {
                            cats.push(c.clone());
                            let empty_group: Vec<(usize, Rat)> = Vec::new();
                            groups.push(empty_group);
                            proof {
                                assert(strs(cats@) =~= old_cats.push(c@));
                            }
                            cats.len() - 1
                        },
                    };
                    proof {
                        if was_found {
                            assert(old_cats.contains(c@)) by {
                                assert(old_cats[idx as int] == c@);
                            }
                        } else {
                            assert(!old_cats.contains(c@));
                        }
                        assert(strs(cats@)[idx as int] == c@);
                    }
                    let ghost mid_groups = groups@;
                    let g = &mut groups[idx];
                    g.push((k2, v));
                    proof {
                        assert(groups@ =~= mid_groups.update(idx as int, groups@[idx as int]));
                        if was_found {
                            assert(mid_groups == old_groups);
                            assert(groups@[idx as int]@ =~= old_groups[idx as int]@.push((k2, v)));
                        } else {
                            assert(mid_groups =~= old_groups.push(mid_groups[idx as int]));
                            assert(mid_groups[idx as int]@ =~= Seq::<(usize, Rat)>::empty());
                            assert(groups@[idx as int]@ =~= Seq::<(usize, Rat)>::empty().push(
                                (k2, v),
                            ));
                            assert forall|x: int| 0 <= x < old_groups.len() implies
                                #[trigger] groups@[x]@ == old_groups[x]@ by {
                                assert(groups@[x] == mid_groups[x]);
                            }
                        }
                        lemma_group_step(
                            data@,
                            keysv,
                            k2 as int,
                            di as int,
                            k2,
                            old_cats,
                            old_groups,
                            strs(cats@),
                            groups@,
                            idx as int,
                            c@,
                            v,
                        );
                    }
                } else {
                    proof {
                        assert(strs(cats@) == dedup_first(
                            sofar_cats(data@, keysv, k2 as int, (di + 1) as int),
                        )) by {
                            lemma_sofar_nomatch(data@, keysv, k2 as int, di as int);
                        }
                        lemma_sofar_nomatch(data@, keysv, k2 as int, di as int);
                    }
                }
                di = di + 1;
            }
            proof {
                lemma_outer_step(data@, keysv, k2 as int);
            }
            k2 = k2 + 1;
        }

        // build one bar per category
        let band = match me.x_scale {
            Some(b) => b,
            None => {
                return Err(DataError::WrongXScale);
            },
        };
        let lin = match me.y_scale {
            Some(l) => l,
            None => {
                return Err(DataError::WrongYScale);
            },
        };
        let rev = lin.is_range_reversed();
        let width = match band.bandwidth() {
            Some(w) => w,
            None => {
                return Err(DataError::WrongXScale);
            },
        };
        let ghost catsv = strs(cats@);
        proof {
            assert(keysv.take(keysv.len() as int) =~= keysv);
            assert(sofar_cats(data@, keysv, keysv.len() as int, 0) =~= trav_cats(data@, keysv));
            assert forall|x: int| 0 <= x < catsv.len() implies pair_vals(
                #[trigger] groups@[x]@,
            ) =~= stack_values(data@, keysv, catsv[x]) && pair_keys(groups@[x]@) =~= stack_keyidx(
                data@,
                keysv,
                catsv[x],
            ) by {
                assert(sofar_vals(data@, keysv, keysv.len() as int, 0, catsv[x]) =~= stack_values(
                    data@,
                    keysv,
                    catsv[x],
                ));
                assert(sofar_kidx(data@, keysv, keysv.len() as int, 0, catsv[x]) =~= stack_keyidx(
                    data@,
                    keysv,
                    catsv[x],
                ));
            }
        }
        let ncat = cats.len();
        let mut bars: Vec<Bar> = Vec::new();
        let mut ci: usize = 0;
        while ci < ncat
            invariant
                0 <= ci <= ncat,
                ncat == cats@.len(),
                groups@.len() == cats@.len(),
                catsv == strs(cats@),
                band.wf(),
                lin.wf(),
                lin.dom().len() == 2,
                rev == (lin.rng().0 > lin.rng().1),
                width.wf(),
                q_eq(
                    width@,
                    crate::scales::band::band_bandwidth_q(
                        band.dom().len() as int,
                        band.rng().0,
                        band.rng().1,
                        band.pad_in(),
                        band.pad_out(),
                    ),
                ),
                nk == me.keys@.len(),
                keysv.len() == nk,
                nc == me.colors@.len(),
                nc >= 1,
                key_colors@.len() == nk,
                forall|x: int|
                    0 <= x < nk ==> (#[trigger] key_colors@[x])@ == me.colors@[x % nc as int]
                        .hexv(),
                forall|x: int|
                    0 <= x < cats@.len() ==> pair_vals(#[trigger] groups@[x]@) == stack_values(
                        data@,
                        keysv,
                        catsv[x],
                    ) && pair_keys(groups@[x]@) == stack_keyidx(data@, keysv, catsv[x]),
                forall|x: int, y: int|
                    0 <= x < groups@.len() && 0 <= y < groups@[x]@.len() ==> (
                    #[trigger] groups@[x]@[y]).1.wf() && val_ok(groups@[x]@[y].1@)
                        && groups@[x]@[y].0 < nk,
                bars@.len() == ci,
                catsv == bar_cats(data@, keysv),
                forall|x: int| 0 <= x < ci ==> band.dom().contains(#[trigger] catsv[x]),
                forall|x: int|
                    0 <= x < ci ==> stack_sums_ok(stack_values(data@, keysv, #[trigger] catsv[x])),
                forall|x: int|
                    0 <= x < ci ==> bar_ok(
                        data@,
                        keysv,
                        me.colors@,
                        band,
                        lin,
                        catsv[x],
                        #[trigger] bars@[x],
                    ),
            decreases ncat - ci,
        {
            let cat = &cats[ci];
            let offset = match band.scale(cat) {
                Ok(o) => o,
                Err(_) => {
                    proof {
                        assert(!band.dom().contains(catsv[ci as int]));
                        assert(!load_ok(data@, keysv, band));
                    }
                    return Err(DataError::UnknownCategory);
                },
            };
            let group = &groups[ci];
            let gn = group.len();
            let ghost vs = stack_values(data@, keysv, catsv[ci as int]);
            let ghost kidx = stack_keyidx(data@, keysv, catsv[ci as int]);
            proof {
                assert(pair_vals(group@) == vs && pair_keys(group@) == kidx);
                assert(vs.len() == group@.len() && kidx.len() == group@.len());
            }
            let mut acc = Rat::from_int(0);
            proof {
                assert(q_sum(vs.take(0)) == q_int(0) && sum_reps(vs.take(0)) == (Ratio {
                    n: 0,
                    d: 1,
                })) by {
                    assert(vs.take(0) =~= Seq::<Ratio>::empty());
                }
                assert forall|ii: int| 0 <= ii < vs.len() implies q_wf(#[trigger] vs[ii]) by {
                    assert(vs[ii] == pair_vals(group@)[ii]);
                    assert(group@[ii].1.wf());
                }
            }
            let mut prev = lin.scale(&acc);
            proof {
                lemma_linear_wf(&lin);
                lemma_linear_scale_q_wf(
                    lin.dom()[0],
                    lin.dom()[1],
                    lin.rng().0,
                    lin.rng().1,
                    acc@,
                );
                lemma_linear_scale_q_wf(
                    lin.dom()[0],
                    lin.dom()[1],
                    lin.rng().0,
                    lin.rng().1,
                    q_sum(vs.take(0)),
                );
                lemma_linear_scale_congruence(
                    lin.dom()[0],
                    lin.dom()[1],
                    lin.rng().0,
                    lin.rng().1,
                    acc@,
                    q_sum(vs.take(0)),
                );
                lemma_q_eq_trans(
                    prev@,
                    linear_scale_q(lin.dom()[0], lin.dom()[1], lin.rng().0, lin.rng().1, acc@),
                    linear_scale_q(
                        lin.dom()[0],
                        lin.dom()[1],
                        lin.rng().0,
                        lin.rng().1,
                        q_sum(vs.take(0)),
                    ),
                );
            }
            let mut blocks: Vec<BarBlock> = Vec::new();
            let mut bi: usize = 0;
            while bi < gn
                invariant
                    0 <= bi <= gn,
                    gn == group@.len(),
                    group@ == groups@[ci as int]@,
                    0 <= (ci as int) < groups@.len(),
                    vs == stack_values(data@, keysv, catsv[ci as int]),
                    kidx == stack_keyidx(data@, keysv, catsv[ci as int]),
                    pair_vals(group@) == vs,
                    pair_keys(group@) == kidx,
                    vs.len() == gn,
                    kidx.len() == gn,
                    lin.wf(),
                    lin.dom().len() == 2,
                    rev == (lin.rng().0 > lin.rng().1),
                    nk == keysv.len(),
                    nc == me.colors@.len(),
                    nc >= 1,
                    key_colors@.len() == nk,
                    forall|x: int|
                        0 <= x < nk ==> (#[trigger] key_colors@[x])@ == me.colors@[x
                            % nc as int].hexv(),
                    forall|x: int, y: int|
                        0 <= x < groups@.len() && 0 <= y < groups@[x]@.len() ==> (
                        #[trigger] groups@[x]@[y]).1.wf() && val_ok(groups@[x]@[y].1@)
                            && groups@[x]@[y].0 < nk,
                    acc.wf(),
                    val_ok(acc@),
                    acc@ == sum_reps(vs.take(bi as int)),
                    forall|ii: int| 0 <= ii <= bi ==> val_ok(#[trigger] sum_reps(vs.take(ii))),
                    q_eq(acc@, q_sum(vs.take(bi as int))),
                    prev.wf(),
                    q_eq(
                        prev@,
                        linear_scale_q(
                            lin.dom()[0],
                            lin.dom()[1],
                            lin.rng().0,
                            lin.rng().1,
                            q_sum(vs.take(bi as int)),
                        ),
                    ),
                    blocks@.len() == bi,
                    forall|x: int|
                        0 <= x < bi ==> stacked_block_ok(
                            vs,
                            kidx,
                            me.colors@,
                            lin,
                            #[trigger] blocks@[x],
                            x,
                        ),
                decreases gn - bi,
            {
                let p = group[bi];
                let kidx_b = p.0;
                let v = p.1;
                proof {
                    assert(groups@[ci as int]@[bi as int] == p);
                    assert(v.wf() && val_ok(v@) && kidx_b < nk);
                    assert(pair_vals(group@)[bi as int] == v@);
                    assert(pair_keys(group@)[bi as int] == kidx_b as int);
                    assert(vs[bi as int] == v@);
                    assert forall|ii: int| 0 <= ii < vs.len() implies q_wf(#[trigger] vs[ii]) by {
                        assert(vs[ii] == pair_vals(group@)[ii]);
                        assert(group@[ii].1.wf());
                    }
                    assert forall|ii: int| 0 <= ii < vs.take(bi as int).len() implies q_wf(
                        #[trigger] vs.take(bi as int)[ii],
                    ) by {
                        assert(vs.take(bi as int)[ii] == vs[ii]);
                    }
                    assert forall|ii: int| 0 <= ii < vs.take((bi + 1) as int).len() implies q_wf(
                        #[trigger] vs.take((bi + 1) as int)[ii],
                    ) by {
                        assert(vs.take((bi + 1) as int)[ii] == vs[ii]);
                    }
                }
                let acc2 = acc.add(&v);
                proof {
                    assert(vs.take((bi + 1) as int).drop_last() =~= vs.take(bi as int));
                    assert(vs.take((bi + 1) as int).last() == vs[bi as int]);
                    assert(acc2@ == sum_reps(vs.take((bi + 1) as int)));
                }
                if !(acc2.check_wf() && val_ok_exec(&acc2)) {
                    proof {
                        assert(val_ok(acc2@) ==> acc2.wf());
                        assert(!val_ok(sum_reps(vs.take((bi + 1) as int))));
                        assert(!stack_sums_ok(vs));
                        assert(!load_ok(data@, keysv, band));
                    }
                    return Err(DataError::ValueOutOfRange);
                }
                proof {
                    lemma_linear_wf(&lin);
                    assert(q_sum(vs.take((bi + 1) as int)) == q_add(
                        q_sum(vs.take(bi as int)),
                        vs[bi as int],
                    ));
                    assert(q_wf(q_sum(vs.take(bi as int)))) by {
                        lemma_q_sum_wf(vs.take(bi as int));
                    }
                    assert(q_wf(q_sum(vs.take((bi + 1) as int)))) by {
                        lemma_q_sum_wf(vs.take((bi + 1) as int));
                    }
                    lemma_q_add_congruence(
                        acc@,
                        v@,
                        q_sum(vs.take(bi as int)),
                        vs[bi as int],
                    );
                    lemma_q_eq_trans(
                        acc2@,
                        q_add(acc@, v@),
                        q_add(q_sum(vs.take(bi as int)), vs[bi as int]),
                    );
                }
                let cur = lin.scale(&acc2);
                proof {
                    lemma_linear_scale_q_wf(
                        lin.dom()[0],
                        lin.dom()[1],
                        lin.rng().0,
                        lin.rng().1,
                        acc2@,
                    );
                    lemma_linear_scale_q_wf(
                        lin.dom()[0],
                        lin.dom()[1],
                        lin.rng().0,
                        lin.rng().1,
                        q_sum(vs.take((bi + 1) as int)),
                    );
                    lemma_linear_scale_congruence(
                        lin.dom()[0],
                        lin.dom()[1],
                        lin.rng().0,
                        lin.rng().1,
                        acc2@,
                        q_sum(vs.take((bi + 1) as int)),
                    );
                    lemma_q_eq_trans(
                        cur@,
                        linear_scale_q(
                            lin.dom()[0],
                            lin.dom()[1],
                            lin.rng().0,
                            lin.rng().1,
                            acc2@,
                        ),
                        linear_scale_q(
                            lin.dom()[0],
                            lin.dom()[1],
                            lin.rng().0,
                            lin.rng().1,
                            q_sum(vs.take((bi + 1) as int)),
                        ),
                    );
                }
                let color = key_colors[kidx_b].clone();
                let block = if rev {
                    BarBlock::new(cur, prev, v, color)
                } else {
                    BarBlock::new(prev, cur, v, color)
                };
                blocks.push(block);
                acc = acc2;
                prev = cur;
                bi = bi + 1;
            }
            let bar = Bar::new(
                blocks,
                Orientation::Vertical,
                cat.clone(),
                me.label_position,
                me.labels_visible,
                me.rounding_precision,
                width,
                offset,
            );
            proof {
                assert(bar_ok(data@, keysv, me.colors@, band, lin, catsv[ci as int], bar));
                assert(vs.take(gn as int) =~= vs);
                assert(stack_sums_ok(vs));
                assert(band.dom().contains(catsv[ci as int]));
            }
            bars.push(bar);
            ci = ci + 1;
        }
        me.x_scale = Some(band);
        me.y_scale = Some(lin);
        me.entries = bars;
        me.key_colors = key_colors;
        proof {
            assert(strs(me.keys@) == keysv);
            assert forall|di: int|
                0 <= di < data@.len() && keysv.contains((#[trigger] data@[di]).key_spec()) implies
                val_ok(data@[di].value_spec()) by {
                let ki = choose|ki: int|
                    0 <= ki < keysv.len() && keysv[ki] == data@[di].key_spec();
                assert(data@[di].key_spec() == keysv[ki]);
            }
            assert(load_ok(data@, keysv, band));
        }
        Ok(me)
    }

    /// Return the legend entries of this view: the custom data label when
    /// the data has no keys, one square entry per key otherwise. Before
    /// any data was loaded no keys carry colors yet, and the legend is
    /// empty.
    pub fn get_legend_entries(&self) -> (r: Vec<LegendEntry>)
        requires
            self.wf(),
        ensures
            self.key_colors_view().len() != self.keys_view().len() ==> r@.len() == 0,
            self.key_colors_view().len() == self.keys_view().len() ==> {
                &&& (self.keys_view().len() == 1 && self.keys_view()[0].len() == 0 ==> r@.len()
                    == 1 && r@[0].label_val() == self.custom_label_val())
                &&& (!(self.keys_view().len() == 1 && self.keys_view()[0].len() == 0) ==> r@.len()
                    == self.keys_view().len() && (forall|i: int|
                    0 <= i < r@.len() ==> (#[trigger] r@[i]).label_val() == self.keys_view()[i]
                        && r@[i].color_val() == self.key_colors_view()[i]))
            },
    {
        let mut entries: Vec<LegendEntry> = Vec::new();
        if self.key_colors.len() != self.keys.len() {
            return entries;
        }
        let single = self.keys.len() == 1 && self.keys[0].as_str().unicode_len() == 0;
        if single {
            entries.push(
                LegendEntry::new(
                    LegendMarkerType::Square,
                    self.key_colors[0].clone(),
                    "none".to_owned(),
                    self.custom_data_label.clone(),
                ),
            );
        } else {
            let n = self.keys.len();
            let mut i: usize = 0;
            while i < n
                invariant
                    0 <= i <= n,
                    n == self.keys@.len(),
                    self.key_colors@.len() == n,
                    entries@.len() == i,
                    forall|k: int|
                        0 <= k < i ==> (#[trigger] entries@[k]).label_val() == strs(self.keys@)[k]
                            && entries@[k].color_val() == strs(self.key_colors@)[k],
                decreases n - i,
            {
                entries.push(
                    LegendEntry::new(
                        LegendMarkerType::Square,
                        self.key_colors[i].clone(),
                        "none".to_owned(),
                        self.keys[i].clone(),
                    ),
                );
                i = i + 1;
            }
        }
        entries
    }
}

/// A sum of well-formed summands is well-formed.
proof fn lemma_q_sum_wf(vs: Seq<Ratio>)
    requires
        forall|i: int| 0 <= i < vs.len() ==> q_wf(#[trigger] vs[i]),
    ensures
        q_wf(q_sum(vs)),
    decreases vs.len(),
{
    if vs.len() > 0 {
        lemma_q_sum_wf(vs.drop_last());
        assert(q_sum(vs).d == q_sum(vs.drop_last()).d * vs.last().d);
        assert(q_sum(vs).d >= 1) by (nonlinear_arith)
            requires
                q_sum(vs).d == q_sum(vs.drop_last()).d * vs.last().d,
                q_sum(vs.drop_last()).d >= 1,
                vs.last().d >= 1,
        ;
    }
}

/// Rows of some keys vanish: the number of keys is at most the number of
/// rows.
proof fn lemma_row_keys_len<D: BarDatum>(rows: Seq<D>)
    ensures
        row_keys(rows).len() == rows.len(),
    decreases rows.len(),
{
    if rows.len() > 0 {
        lemma_row_keys_len(rows.drop_last());
    }
}

/// Processing a non-matching row changes nothing that was collected.
proof fn lemma_sofar_nomatch<D: BarDatum>(rows: Seq<D>, keys: Seq<Seq<char>>, ki: int, di: int)
    requires
        0 <= ki < keys.len(),
        0 <= di < rows.len(),
        rows[di].key_spec() != keys[ki],
    ensures
        sofar_cats(rows, keys, ki, di + 1) == sofar_cats(rows, keys, ki, di),
        forall|c: Seq<char>|
            #[trigger] sofar_vals(rows, keys, ki, di + 1, c) == sofar_vals(rows, keys, ki, di, c)
                && #[trigger] sofar_kidx(rows, keys, ki, di + 1, c) == sofar_kidx(
                rows,
                keys,
                ki,
                di,
                c,
            ),
{
    let pre = rows.take(di + 1);
    assert(pre.drop_last() =~= rows.take(di));
    assert(pre.last() == rows[di]);
    assert(row_cats(pre, keys[ki]) == row_cats(rows.take(di), keys[ki]));
    assert(sofar_cats(rows, keys, ki, di + 1) == sofar_cats(rows, keys, ki, di));
    assert forall|c: Seq<char>| true implies #[trigger] sofar_vals(rows, keys, ki, di + 1, c)
        == sofar_vals(rows, keys, ki, di, c) && #[trigger] sofar_kidx(rows, keys, ki, di + 1, c)
        == sofar_kidx(rows, keys, ki, di, c) by {
        assert(row_vals(pre, keys[ki], c) == row_vals(rows.take(di), keys[ki], c));
        assert(row_keyidx(pre, keys[ki], c, ki) == row_keyidx(rows.take(di), keys[ki], c, ki));
    }
}

/// Processing a matching row pushes its category once and its value onto
/// its category's group; all other groups stay as they were.
#[verifier::rlimit(30)]
proof fn lemma_group_step<D: BarDatum>(
    rows: Seq<D>,
    keys: Seq<Seq<char>>,
    ki: int,
    di: int,
    kiu: usize,
    old_cats: Seq<Seq<char>>,
    old_groups: Seq<Vec<(usize, Rat)>>,
    new_cats: Seq<Seq<char>>,
    new_groups: Seq<Vec<(usize, Rat)>>,
    idx: int,
    c: Seq<char>,
    v: Rat,
)
    requires
        0 <= ki < keys.len(),
        kiu as int == ki,
        0 <= di < rows.len(),
        rows[di].key_spec() == keys[ki],
        rows[di].category_spec() == c,
        rows[di].value_spec() == v@,
        old_cats == dedup_first(sofar_cats(rows, keys, ki, di)),
        old_groups.len() == old_cats.len(),
        forall|x: int|
            0 <= x < old_cats.len() ==> pair_vals(#[trigger] old_groups[x]@) == sofar_vals(
                rows,
                keys,
                ki,
                di,
                old_cats[x],
            ) && pair_keys(old_groups[x]@) == sofar_kidx(rows, keys, ki, di, old_cats[x]),
        // the category's index: either it was known, or it was appended
        (old_cats.contains(c) && new_cats == old_cats) || (!old_cats.contains(c) && new_cats
            == old_cats.push(c)),
        0 <= idx < new_cats.len(),
        new_cats[idx] == c,
        // groups: the found group was pushed; a fresh group holds the pair
        (old_cats.contains(c) ==> new_groups.len() == old_groups.len() && (forall|x: int|
            0 <= x < old_groups.len() && x != idx ==> #[trigger] new_groups[x]@
                == old_groups[x]@) && new_groups[idx]@ == old_groups[idx]@.push((kiu, v))),
        (!old_cats.contains(c) ==> new_groups.len() == old_groups.len() + 1 && (forall|x: int|
            0 <= x < old_groups.len() ==> #[trigger] new_groups[x]@ == old_groups[x]@)
            && new_groups[idx]@ == Seq::<(usize, Rat)>::empty().push((kiu, v))),
        new_cats.len() == new_groups.len(),
        forall|i: int, j: int| 0 <= i < j < old_cats.len() ==> old_cats[i] != old_cats[j],
    ensures
        new_cats == dedup_first(sofar_cats(rows, keys, ki, di + 1)),
        forall|x: int|
            0 <= x < new_cats.len() ==> pair_vals(#[trigger] new_groups[x]@) == sofar_vals(
                rows,
                keys,
                ki,
                di + 1,
                new_cats[x],
            ) && pair_keys(new_groups[x]@) == sofar_kidx(rows, keys, ki, di + 1, new_cats[x]),
{
    let pre = rows.take(di + 1);
    assert(pre.drop_last() =~= rows.take(di));
    assert(pre.last() == rows[di]);
    let sc_old = sofar_cats(rows, keys, ki, di);
    let sc_new = sofar_cats(rows, keys, ki, di + 1);
    assert(row_cats(pre, keys[ki]) == row_cats(rows.take(di), keys[ki]).push(c));
    assert(sc_new =~= sc_old.push(c));
    assert(dedup_first(sc_new) == if dedup_first(sc_old).contains(c) {
        dedup_first(sc_old)
    } else {
        dedup_first(sc_old).push(c)
    }) by {
        assert(sc_new.drop_last() =~= sc_old);
        assert(sc_new.last() == c);
    }
    assert(new_cats == dedup_first(sc_new));
    assert forall|x: int| 0 <= x < new_cats.len() implies pair_vals(
        #[trigger] new_groups[x]@,
    ) == sofar_vals(rows, keys, ki, di + 1, new_cats[x]) && pair_keys(new_groups[x]@)
        == sofar_kidx(rows, keys, ki, di + 1, new_cats[x]) by {
        let cx = new_cats[x];
        if x == idx {
            assert(cx == c);
            assert(row_vals(pre, keys[ki], c) == row_vals(rows.take(di), keys[ki], c).push(v@));
            assert(row_keyidx(pre, keys[ki], c, ki) == row_keyidx(
                rows.take(di),
                keys[ki],
                c,
                ki,
            ).push(ki));
            assert(sofar_vals(rows, keys, ki, di + 1, c) =~= sofar_vals(
                rows,
                keys,
                ki,
                di,
                c,
            ).push(v@));
            assert(sofar_kidx(rows, keys, ki, di + 1, c) =~= sofar_kidx(
                rows,
                keys,
                ki,
                di,
                c,
            ).push(ki));
            if old_cats.contains(c) {
                assert(old_cats[idx] == c);
                assert(pair_vals(new_groups[idx]@) =~= pair_vals(old_groups[idx]@).push(v@));
                assert(kiu as int == ki);
                assert(pair_keys(new_groups[idx]@) =~= pair_keys(old_groups[idx]@).push(ki));
            } else {
                assert(sofar_vals(rows, keys, ki, di, c) =~= Seq::<Ratio>::empty()) by {
                    lemma_absent_cat_empty(rows, keys, ki, di, c);
                }
                assert(sofar_kidx(rows, keys, ki, di, c) =~= Seq::<int>::empty()) by {
                    lemma_absent_cat_empty(rows, keys, ki, di, c);
                }
                assert(pair_vals(new_groups[idx]@) =~= Seq::<Ratio>::empty().push(v@));
                assert(pair_keys(new_groups[idx]@) =~= Seq::<int>::empty().push(ki));
            }
        } else {
            assert(cx != c) by {
                if old_cats.contains(c) {
                    if x < idx {
                        assert(new_cats[x] != new_cats[idx]);
                    } else {
                        assert(new_cats[idx] != new_cats[x]);
                    }
                } else {
                    assert(idx == new_cats.len() - 1);
                    assert(x < old_cats.len() && old_cats[x] == cx);
                    if cx == c {
                        assert(old_cats.contains(c));
                        assert(false);
                    }
                }
            }
            assert(x < old_cats.len() && old_cats[x] == cx);
            assert(new_groups[x]@ == old_groups[x]@);
            assert(row_vals(pre, keys[ki], cx) == row_vals(rows.take(di), keys[ki], cx));
            assert(row_keyidx(pre, keys[ki], cx, ki) == row_keyidx(
                rows.take(di),
                keys[ki],
                cx,
                ki,
            ));
            assert(sofar_vals(rows, keys, ki, di + 1, cx) == sofar_vals(rows, keys, ki, di, cx));
            assert(sofar_kidx(rows, keys, ki, di + 1, cx) == sofar_kidx(rows, keys, ki, di, cx));
        }
    }
}

/// A category that was never collected has no collected values.
proof fn lemma_absent_cat_empty<D: BarDatum>(
    rows: Seq<D>,
    keys: Seq<Seq<char>>,
    ki: int,
    di: int,
    c: Seq<char>,
)
    requires
        0 <= ki < keys.len(),
        0 <= di <= rows.len(),
        !dedup_first(sofar_cats(rows, keys, ki, di)).contains(c),
    ensures
        sofar_vals(rows, keys, ki, di, c) == Seq::<Ratio>::empty(),
        sofar_kidx(rows, keys, ki, di, c) == Seq::<int>::empty(),
{
    crate::scales::band::lemma_dedup_first_props(sofar_cats(rows, keys, ki, di));
    assert(!sofar_cats(rows, keys, ki, di).contains(c));
    let a = trav_cats(rows, keys.take(ki));
    let b = row_cats(rows.take(di), keys[ki]);
    assert(!a.contains(c)) by {
        if a.contains(c) {
            let k = choose|k: int| 0 <= k < a.len() && a[k] == c;
            assert(sofar_cats(rows, keys, ki, di)[k] == c);
        }
    }
    assert(!b.contains(c)) by {
        if b.contains(c) {
            let k = choose|k: int| 0 <= k < b.len() && b[k] == c;
            assert(sofar_cats(rows, keys, ki, di)[a.len() + k] == c);
        }
    }
    lemma_no_cat_no_vals(rows, keys.take(ki), c);
    lemma_no_cat_no_vals_row(rows.take(di), keys[ki], c, ki);
    assert(sofar_vals(rows, keys, ki, di, c) =~= Seq::<Ratio>::empty());
    assert(sofar_kidx(rows, keys, ki, di, c) =~= Seq::<int>::empty());
}

/// If the traversal never saw category `c`, no values were stacked for it.
proof fn lemma_no_cat_no_vals<D: BarDatum>(rows: Seq<D>, keys: Seq<Seq<char>>, c: Seq<char>)
    requires
        !trav_cats(rows, keys).contains(c),
    ensures
        stack_values(rows, keys, c) == Seq::<Ratio>::empty(),
        stack_keyidx(rows, keys, c) == Seq::<int>::empty(),
    decreases keys.len(),
{
    if keys.len() > 0 {
        assert forall|e: Seq<char>| trav_cats(rows, keys.drop_last()).contains(e) implies
            trav_cats(rows, keys).contains(e) by {
            let k = choose|k: int|
                0 <= k < trav_cats(rows, keys.drop_last()).len() && trav_cats(
                    rows,
                    keys.drop_last(),
                )[k] == e;
            assert(trav_cats(rows, keys)[k] == e);
        }
        lemma_no_cat_no_vals(rows, keys.drop_last(), c);
        assert forall|e: Seq<char>| row_cats(rows, keys.last()).contains(e) implies trav_cats(
            rows,
            keys,
        ).contains(e) by {
            let k = choose|k: int|
                0 <= k < row_cats(rows, keys.last()).len() && row_cats(rows, keys.last())[k] == e;
            assert(trav_cats(rows, keys)[trav_cats(rows, keys.drop_last()).len() + k] == e);
        }
        lemma_no_cat_no_vals_row(rows, keys.last(), c, keys.len() - 1);
        assert(stack_values(rows, keys, c) =~= Seq::<Ratio>::empty());
        assert(stack_keyidx(rows, keys, c) =~= Seq::<int>::empty());
    }
}

/// If no row with key `k` has category `c`, no values were kept for it.
proof fn lemma_no_cat_no_vals_row<D: BarDatum>(
    rows: Seq<D>,
    k: Seq<char>,
    c: Seq<char>,
    ki: int,
)
    requires
        !row_cats(rows, k).contains(c),
    ensures
        row_vals(rows, k, c) == Seq::<Ratio>::empty(),
        row_keyidx(rows, k, c, ki) == Seq::<int>::empty(),
    decreases rows.len(),
{
    if rows.len() > 0 {
        assert forall|e: Seq<char>| row_cats(rows.drop_last(), k).contains(e) implies row_cats(
            rows,
            k,
        ).contains(e) by {
            let x = choose|x: int|
                0 <= x < row_cats(rows.drop_last(), k).len() && row_cats(rows.drop_last(), k)[x]
                    == e;
            assert(row_cats(rows, k)[x] == e);
        }
        lemma_no_cat_no_vals_row(rows.drop_last(), k, c, ki);
        if rows.last().key_spec() == k && rows.last().category_spec() == c {
            assert(row_cats(rows, k).last() == c);
            assert(row_cats(rows, k).contains(c));
            assert(false);
        }
        assert(row_vals(rows, k, c) =~= Seq::<Ratio>::empty());
        assert(row_keyidx(rows, k, c, ki) =~= Seq::<int>::empty());
    }
}

/// Finishing a key's row pass equals having processed one more key.
proof fn lemma_outer_step<D: BarDatum>(rows: Seq<D>, keys: Seq<Seq<char>>, ki: int)
    requires
        0 <= ki < keys.len(),
    ensures
        sofar_cats(rows, keys, ki, rows.len() as int) == sofar_cats(rows, keys, ki + 1, 0),
        forall|c: Seq<char>|
            #[trigger] sofar_vals(rows, keys, ki, rows.len() as int, c) == sofar_vals(
                rows,
                keys,
                ki + 1,
                0,
                c,
            ) && #[trigger] sofar_kidx(rows, keys, ki, rows.len() as int, c) == sofar_kidx(
                rows,
                keys,
                ki + 1,
                0,
                c,
            ),
{
    assert(rows.take(rows.len() as int) =~= rows);
    assert(keys.take(ki + 1).drop_last() =~= keys.take(ki));
    assert(keys.take(ki + 1).last() == keys[ki]);
    assert(trav_cats(rows, keys.take(ki + 1)) == trav_cats(rows, keys.take(ki)) + row_cats(
        rows,
        keys[ki],
    ));
    if ki + 1 < keys.len() {
        assert(rows.take(0) =~= Seq::<D>::empty());
        assert(sofar_cats(rows, keys, ki + 1, 0) =~= trav_cats(rows, keys.take(ki + 1)));
        assert(sofar_cats(rows, keys, ki, rows.len() as int) =~= sofar_cats(rows, keys, ki + 1, 0));
    } else {
        assert(sofar_cats(rows, keys, ki, rows.len() as int) =~= sofar_cats(rows, keys, ki + 1, 0));
    }
    assert forall|c: Seq<char>| true implies #[trigger] sofar_vals(
        rows,
        keys,
        ki,
        rows.len() as int,
        c,
    ) == sofar_vals(rows, keys, ki + 1, 0, c) && #[trigger] sofar_kidx(
        rows,
        keys,
        ki,
        rows.len() as int,
        c,
    ) == sofar_kidx(rows, keys, ki + 1, 0, c) by {
        assert(stack_values(rows, keys.take(ki + 1), c) == stack_values(rows, keys.take(ki), c)
            + row_vals(rows, keys[ki], c));
        assert(stack_keyidx(rows, keys.take(ki + 1), c) == stack_keyidx(rows, keys.take(ki), c)
            + row_keyidx(rows, keys[ki], c, ki + 1 - 1));
        if ki + 1 < keys.len() {
            assert(rows.take(0) =~= Seq::<D>::empty());
            assert(sofar_vals(rows, keys, ki, rows.len() as int, c) =~= sofar_vals(
                rows,
                keys,
                ki + 1,
                0,
                c,
            ));
            assert(sofar_kidx(rows, keys, ki, rows.len() as int, c) =~= sofar_kidx(
                rows,
                keys,
                ki + 1,
                0,
                c,
            ));
        } else {
            assert(sofar_vals(rows, keys, ki, rows.len() as int, c) =~= sofar_vals(
                rows,
                keys,
                ki + 1,
                0,
                c,
            ));
            assert(sofar_kidx(rows, keys, ki, rows.len() as int, c) =~= sofar_kidx(
                rows,
                keys,
                ki + 1,
                0,
                c,
            ));
        }
    }
}

} // verus!
