//! Fixed color palettes. A color is carried as a hex string; stacking
//! assigns palette entries to series keys, cycling when keys outnumber
//! colors.

use vstd::prelude::*;

verus! {

/// A color, as a hex string such as `#1f77b4`.
pub struct Color {
    hex: String,
}

impl Color {
    /// The color's hex text.
    pub closed spec fn hexv(&self) -> Seq<char> {
        self.hex@
    }

    /// Build a palette from hex strings.
    pub fn from_vec_of_hex_strings(color_strings: Vec<&str>) -> (r: Vec<Color>)
        ensures
            r@.len() == color_strings@.len(),
            forall|i: int|
                0 <= i < r@.len() ==> (#[trigger] r@[i]).hexv() == color_strings@[i]@,
    {
        let mut colors: Vec<Color> = Vec::new();
        let mut i: usize = 0;
        while i < color_strings.len()
            invariant
                0 <= i <= color_strings@.len(),
                colors@.len() == i,
                forall|k: int|
                    0 <= k < i ==> (#[trigger] colors@[k]).hexv() == color_strings@[k]@,
            decreases color_strings@.len() - i,
        {
            colors.push(Color { hex: color_strings[i].to_owned() });
            i = i + 1;
        }
        colors
    }

    /// The ten-color categorical palette used by default.
    pub fn color_scheme_10() -> (r: Vec<Color>)
        ensures
            r@.len() == 10,
            r@[0].hexv() == "#1f77b4"@,
            r@[1].hexv() == "#ff7f0e"@,
            r@[2].hexv() == "#2ca02c"@,
            r@[3].hexv() == "#d62728"@,
            r@[4].hexv() == "#9467bd"@,
            r@[5].hexv() == "#8c564b"@,
            r@[6].hexv() == "#e377c2"@,
            r@[7].hexv() == "#7f7f7f"@,
            r@[8].hexv() == "#bcbd22"@,
            r@[9].hexv() == "#17becf"@,
    {
        let mut v: Vec<Color> = Vec::new();
        v.push(Color { hex: "#1f77b4".to_owned() });
        v.push(Color { hex: "#ff7f0e".to_owned() });
        v.push(Color { hex: "#2ca02c".to_owned() });
        v.push(Color { hex: "#d62728".to_owned() });
        v.push(Color { hex: "#9467bd".to_owned() });
        v.push(Color { hex: "#8c564b".to_owned() });
        v.push(Color { hex: "#e377c2".to_owned() });
        v.push(Color { hex: "#7f7f7f".to_owned() });
        v.push(Color { hex: "#bcbd22".to_owned() });
        v.push(Color { hex: "#17becf".to_owned() });
        v
    }

    /// Ten categorical colors authored by Tableau.
    pub fn color_scheme_tableau_10() -> (r: Vec<Color>)
        ensures
            r@.len() == 10,
            r@[0].hexv() == "#4e79a7"@,
            r@[1].hexv() == "#f28e2c"@,
            r@[2].hexv() == "#e15759"@,
            r@[3].hexv() == "#76b7b2"@,
            r@[4].hexv() == "#59a14f"@,
            r@[5].hexv() == "#edc949"@,
            r@[6].hexv() == "#af7aa1"@,
            r@[7].hexv() == "#ff9da7"@,
            r@[8].hexv() == "#9c755f"@,
            r@[9].hexv() == "#bab0ab"@,
    {
        let mut v: Vec<Color> = Vec::new();
        v.push(Color { hex: "#4e79a7".to_owned() });
        v.push(Color { hex: "#f28e2c".to_owned() });
        v.push(Color { hex: "#e15759".to_owned() });
        v.push(Color { hex: "#76b7b2".to_owned() });
        v.push(Color { hex: "#59a14f".to_owned() });
        v.push(Color { hex: "#edc949".to_owned() });
        v.push(Color { hex: "#af7aa1".to_owned() });
        v.push(Color { hex: "#ff9da7".to_owned() });
        v.push(Color { hex: "#9c755f".to_owned() });
        v.push(Color { hex: "#bab0ab".to_owned() });
        v
    }

    /// Eight categorical colors on dark tones.
    pub fn color_scheme_dark() -> (r: Vec<Color>)
        ensures
            r@.len() == 8,
            r@[0].hexv() == "#1b9e77"@,
            r@[1].hexv() == "#d95f02"@,
            r@[2].hexv() == "#7570b3"@,
            r@[3].hexv() == "#e7298a"@,
            r@[4].hexv() == "#66a61e"@,
            r@[5].hexv() == "#e6ab02"@,
            r@[6].hexv() == "#a6761d"@,
            r@[7].hexv() == "#666666"@,
    {
        let mut v: Vec<Color> = Vec::new();
        v.push(Color { hex: "#1b9e77".to_owned() });
        v.push(Color { hex: "#d95f02".to_owned() });
        v.push(Color { hex: "#7570b3".to_owned() });
        v.push(Color { hex: "#e7298a".to_owned() });
        v.push(Color { hex: "#66a61e".to_owned() });
        v.push(Color { hex: "#e6ab02".to_owned() });
        v.push(Color { hex: "#a6761d".to_owned() });
        v.push(Color { hex: "#666666".to_owned() });
        v
    }

    /// The color's hex text, as a fresh string.
    pub fn as_hex(&self) -> (r: String)
        ensures
            r@ == self.hexv(),
    {
        self.hex.clone()
    }
}

} // verus!
