//! Views: the dataset loaders that turn raw rows into positioned
//! geometry using the scales they were given.

use vstd::prelude::*;

pub mod area;
pub mod datum;
pub mod line;
pub mod scatter;
pub mod vertical_bar;

verus! {

/// Failure when loading a dataset into a view.
#[derive(Copy, Clone, Debug, PartialEq, Eq, Structural)]
pub enum DataError {
    /// The X axis scale is missing or of the wrong kind.
    WrongXScale,
    /// The Y axis scale is missing, of the wrong kind, or has no domain.
    WrongYScale,
    /// A scale is missing where one is required.
    MissingScale,
    /// A category in the data is not part of the band scale's domain.
    UnknownCategory,
    /// A value (or a running total) left the exact range the scales
    /// accept.
    ValueOutOfRange,
    /// A datum's key is not in the view's key list.
    UnknownKey,
}

impl DataError {
    /// A human-readable description of the failure.
    pub fn message(&self) -> String {
        match self {
            DataError::WrongXScale => "The X axis scale should be a Band scale.".to_owned(),
            DataError::WrongYScale => "The Y axis scale should be a Linear scale.".to_owned(),
            DataError::MissingScale => "Please provide a scale before loading data".to_owned(),
            DataError::UnknownCategory => "the category is not part of the scale's domain".to_owned(),
            DataError::ValueOutOfRange => "a value is outside the scales' exact range".to_owned(),
            DataError::UnknownKey => "the key is not part of the view's key list".to_owned(),
        }
    }
}

/// A scale a view owns for one of its dimensions.
pub enum ViewScale {
    Band(crate::scales::band::ScaleBand),
    Linear(crate::scales::linear::ScaleLinear),
}

impl ViewScale {
    /// The owned scale is well-formed; a linear scale has its domain set.
    pub open spec fn wf(&self) -> bool {
        match self {
            ViewScale::Band(b) => b.wf(),
            ViewScale::Linear(l) => l.wf() && l.dom().len() == 2,
        }
    }
}

/// Where a point lands on one dimension: at the center of its category's
/// band, or at the scaled position of its numeric value (`use_y` picks
/// the datum's Y value instead of its X value). A band scale stores its
/// range ascending, so the half-bandwidth offset a reversed range would
/// negate is always added.
pub open spec fn point_pos_ok<D: crate::views::datum::PointDatum>(
    scale: &ViewScale,
    d: D,
    use_y: bool,
    pos: crate::rational::Ratio,
) -> bool {
    match scale {
        ViewScale::Band(b) => {
            &&& !use_y && d.x_is_category()
            &&& forall|j: int|
                0 <= j < b.dom().len() && b.dom()[j] == d.x_spec() ==> crate::rational::q_eq(
                    pos,
                    b.center_spec(j),
                )
        },
        ViewScale::Linear(l) => {
            &&& (use_y || !d.x_is_category())
            &&& crate::rational::q_eq(
                pos,
                crate::scales::linear::linear_scale_q(
                    l.dom()[0],
                    l.dom()[1],
                    l.rng().0,
                    l.rng().1,
                    if use_y {
                        d.y_spec()
                    } else {
                        d.xnum_spec()
                    },
                ),
            )
        },
    }
}

/// Whether a datum's X dimension can be scaled: a category that the band
/// scale's domain holds, or a number within the linear scale's exact
/// range.
pub open spec fn point_x_ok<D: crate::views::datum::PointDatum>(scale: &ViewScale, d: D) -> bool {
    match scale {
        ViewScale::Band(b) => d.x_is_category() && b.dom().contains(d.x_spec()),
        ViewScale::Linear(_) => !d.x_is_category() && crate::scales::linear::val_ok(d.xnum_spec()),
    }
}

/// Whether a datum's Y dimension can be scaled: the Y scale must be
/// linear and the value within its exact range.
pub open spec fn point_y_ok<D: crate::views::datum::PointDatum>(scale: &ViewScale, d: D) -> bool {
    match scale {
        ViewScale::Band(_) => false,
        ViewScale::Linear(_) => crate::scales::linear::val_ok(d.y_spec()),
    }
}

/// Find a string's first index in a vector.
pub(crate) fn find_str(v: &Vec<String>, s: &String) -> (r: Option<usize>)
    ensures
        r matches Some(i) ==> i < v@.len() && v@[i as int]@ == s@ && (forall|k: int|
            0 <= k < i ==> v@[k]@ != s@),
        r is None <==> !crate::scales::band::strs(v@).contains(s@),
{
    let n = v.len();
    let mut i: usize = 0;
    while i < n
        invariant
            0 <= i <= n,
            n == v@.len(),
            forall|k: int| 0 <= k < i ==> v@[k]@ != s@,
        decreases n - i,
    {
        if v[i] == *s {
            proof {
                assert(crate::scales::band::strs(v@)[i as int] == s@);
            }
            return Some(i);
        }
        i = i + 1;
    }
    proof {
        let sv = crate::scales::band::strs(v@);
        if sv.contains(s@) {
            let k = choose|k: int| 0 <= k < sv.len() && sv[k] == s@;
            assert(v@[k]@ == s@);
            assert(false);
        }
    }
    None
}

} // verus!
