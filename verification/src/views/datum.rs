//! Accessor contracts for raw data rows: a bar datum exposes a category,
//! a value and a series key; a point datum exposes two coordinates and a
//! key. Adapters implement these for whatever row type the caller has.

use vstd::prelude::*;
use crate::rational::{Rat, Ratio};

verus! {

/// A data point of a bar chart.
pub trait BarDatum {
    /// The category of the datum, as a mathematical value.
    spec fn category_spec(&self) -> Seq<char>;

    /// The value of the datum, as a mathematical value.
    spec fn value_spec(&self) -> Ratio;

    /// The key of the datum, as a mathematical value.
    spec fn key_spec(&self) -> Seq<char>;

    /// Return the category of the datum.
    fn get_category(&self) -> (r: String)
        ensures
            r@ == self.category_spec(),
    ;

    /// Return the value of the datum.
    fn get_value(&self) -> (r: Rat)
        ensures
            r@ == self.value_spec(),
    ;

    /// Return the key of the datum. This is optional in a simple bar
    /// chart (an empty string), but a stacked bar chart differentiates
    /// its stacked entries by the key.
    fn get_key(&self) -> (r: String)
        ensures
            r@ == self.key_spec(),
    ;
}

/// A data point of a scatter, line or area chart. One coordinate may be
/// a category (a band-scale dimension), so a datum says which kind its X
/// dimension is and offers both accessors.
pub trait PointDatum {
    spec fn x_spec(&self) -> Seq<char>;

    spec fn xnum_spec(&self) -> Ratio;

    spec fn x_is_category(&self) -> bool;

    spec fn y_spec(&self) -> Ratio;

    spec fn key_spec(&self) -> Seq<char>;

    /// The X value when the X dimension is categorical.
    fn get_x_category(&self) -> (r: String)
        ensures
            r@ == self.x_spec(),
    ;

    /// The X value when the X dimension is numeric.
    fn get_x_number(&self) -> (r: Rat)
        ensures
            r@ == self.xnum_spec(),
    ;

    /// Whether the X dimension of this datum is categorical.
    fn is_x_category(&self) -> (r: bool)
        ensures
            r == self.x_is_category(),
    ;

    /// Return the Y value.
    fn get_y(&self) -> (r: Rat)
        ensures
            r@ == self.y_spec(),
    ;

    /// Return the key of the datum; an empty string when the chart has a
    /// single series.
    fn get_key(&self) -> (r: String)
        ensures
            r@ == self.key_spec(),
    ;
}

impl BarDatum for (String, Rat, String) {
    open spec fn category_spec(&self) -> Seq<char> {
        self.0@
    }

    open spec fn value_spec(&self) -> Ratio {
        self.1@
    }

    open spec fn key_spec(&self) -> Seq<char> {
        self.2@
    }

    fn get_category(&self) -> (r: String) {
        self.0.clone()
    }

    fn get_value(&self) -> (r: Rat) {
        self.1
    }

    fn get_key(&self) -> (r: String) {
        self.2.clone()
    }
}

impl BarDatum for (String, Rat) {
    open spec fn category_spec(&self) -> Seq<char> {
        self.0@
    }

    open spec fn value_spec(&self) -> Ratio {
        self.1@
    }

    open spec fn key_spec(&self) -> Seq<char> {
        Seq::empty()
    }

    fn get_category(&self) -> (r: String) {
        self.0.clone()
    }

    fn get_value(&self) -> (r: Rat) {
        self.1
    }

    fn get_key(&self) -> (r: String) {
        let s = String::new();
        proof {
            assert(s@ =~= Seq::<char>::empty());
        }
        s
    }
}

impl PointDatum for (Rat, Rat, String) {
    open spec fn x_spec(&self) -> Seq<char> {
        Seq::empty()
    }

    open spec fn xnum_spec(&self) -> Ratio {
        self.0@
    }

    open spec fn x_is_category(&self) -> bool {
        false
    }

    open spec fn y_spec(&self) -> Ratio {
        self.1@
    }

    open spec fn key_spec(&self) -> Seq<char> {
        self.2@
    }

    fn get_x_category(&self) -> (r: String) {
        let s = String::new();
        proof {
            assert(s@ =~= Seq::<char>::empty());
        }
        s
    }

    fn get_x_number(&self) -> (r: Rat) {
        self.0
    }

    fn is_x_category(&self) -> (r: bool) {
        false
    }

    fn get_y(&self) -> (r: Rat) {
        self.1
    }

    fn get_key(&self) -> (r: String) {
        self.2.clone()
    }
}

impl PointDatum for (Rat, Rat) {
    open spec fn x_spec(&self) -> Seq<char> {
        Seq::empty()
    }

    open spec fn xnum_spec(&self) -> Ratio {
        self.0@
    }

    open spec fn x_is_category(&self) -> bool {
        false
    }

    open spec fn y_spec(&self) -> Ratio {
        self.1@
    }

    open spec fn key_spec(&self) -> Seq<char> {
        Seq::empty()
    }

    fn get_x_category(&self) -> (r: String) {
        let s = String::new();
        proof {
            assert(s@ =~= Seq::<char>::empty());
        }
        s
    }

    fn get_x_number(&self) -> (r: Rat) {
        self.0
    }

    fn is_x_category(&self) -> (r: bool) {
        false
    }

    fn get_y(&self) -> (r: Rat) {
        self.1
    }

    fn get_key(&self) -> (r: String) {
        let s = String::new();
        proof {
            assert(s@ =~= Seq::<char>::empty());
        }
        s
    }
}

impl PointDatum for (String, Rat, String) {
    open spec fn x_spec(&self) -> Seq<char> {
        self.0@
    }

    open spec fn xnum_spec(&self) -> Ratio {
        Ratio { n: 0, d: 1 }
    }

    open spec fn x_is_category(&self) -> bool {
        true
    }

    open spec fn y_spec(&self) -> Ratio {
        self.1@
    }

    open spec fn key_spec(&self) -> Seq<char> {
        self.2@
    }

    fn get_x_category(&self) -> (r: String) {
        self.0.clone()
    }

    fn get_x_number(&self) -> (r: Rat) {
        Rat::from_int(0)
    }

    fn is_x_category(&self) -> (r: bool) {
        true
    }

    fn get_y(&self) -> (r: Rat) {
        self.1
    }

    fn get_key(&self) -> (r: String) {
        self.2.clone()
    }
}

} // verus!
