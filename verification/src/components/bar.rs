//! A bar and its stacked blocks: contiguous pixel-space segments, each
//! tagged with the value it represents and a color.

use vstd::prelude::*;
use crate::chart::Orientation;
use crate::rational::Rat;

verus! {

/// Where a bar block's value label is drawn.
#[derive(Copy, Clone, Debug, PartialEq, Eq, Structural)]
pub enum BarLabelPosition {
    StartOutside,
    StartInside,
    Center,
    EndInside,
    EndOutside,
}

/// One block of a bar: the pixel interval `[start, end]`, the value it
/// stands for, and its fill color.
pub struct BarBlock {
    start: Rat,
    end: Rat,
    value: Rat,
    color: String,
}

impl BarBlock {
    pub closed spec fn start_val(&self) -> crate::rational::Ratio {
        self.start@
    }

    pub closed spec fn end_val(&self) -> crate::rational::Ratio {
        self.end@
    }

    pub closed spec fn value_val(&self) -> crate::rational::Ratio {
        self.value@
    }

    pub closed spec fn color_val(&self) -> Seq<char> {
        self.color@
    }

    pub fn new(start: Rat, end: Rat, value: Rat, color: String) -> (b: BarBlock)
        ensures
            b.start_val() == start@,
            b.end_val() == end@,
            b.value_val() == value@,
            b.color_val() == color@,
    {
        BarBlock { start, end, value, color }
    }

    pub fn start(&self) -> (r: Rat)
        ensures
            r@ == self.start_val(),
    {
        self.start
    }

    pub fn end(&self) -> (r: Rat)
        ensures
            r@ == self.end_val(),
    {
        self.end
    }

    pub fn value(&self) -> (r: Rat)
        ensures
            r@ == self.value_val(),
    {
        self.value
    }

    pub fn color(&self) -> (r: &String)
        ensures
            r@ == self.color_val(),
    {
        &self.color
    }
}

/// One category's rendered column (or row): an ordered stack of blocks
/// positioned at the category's band offset.
pub struct Bar {
    blocks: Vec<BarBlock>,
    orientation: Orientation,
    label_position: BarLabelPosition,
    rounding_precision: Option<usize>,
    label_visible: bool,
    category: String,
    bar_width: Rat,
    offset: Rat,
}

impl Bar {
    pub closed spec fn category_val(&self) -> Seq<char> {
        self.category@
    }

    pub closed spec fn width_val(&self) -> crate::rational::Ratio {
        self.bar_width@
    }

    pub closed spec fn offset_val(&self) -> crate::rational::Ratio {
        self.offset@
    }

    pub closed spec fn blocks_view(&self) -> Seq<BarBlock> {
        self.blocks@
    }

    pub closed spec fn orientation_val(&self) -> Orientation {
        self.orientation
    }

    pub closed spec fn label_position_val(&self) -> BarLabelPosition {
        self.label_position
    }

    pub closed spec fn label_visible_val(&self) -> bool {
        self.label_visible
    }

    pub closed spec fn rounding_val(&self) -> Option<usize> {
        self.rounding_precision
    }

    pub fn new(
        blocks: Vec<BarBlock>,
        orientation: Orientation,
        category: String,
        label_position: BarLabelPosition,
        label_visible: bool,
        rounding_precision: Option<usize>,
        bar_width: Rat,
        offset: Rat,
    ) -> (b: Bar)
        ensures
            b.blocks_view() == blocks@,
            b.orientation_val() == orientation,
            b.category_val() == category@,
            b.width_val() == bar_width@,
            b.offset_val() == offset@,
    {
        Bar {
            blocks,
            orientation,
            label_position,
            rounding_precision,
            label_visible,
            category,
            bar_width,
            offset,
        }
    }

    pub fn blocks(&self) -> (r: &Vec<BarBlock>)
        ensures
            r@ == self.blocks_view(),
    {
        &self.blocks
    }

    pub fn category(&self) -> (r: &String)
        ensures
            r@ == self.category_val(),
    {
        &self.category
    }

    pub fn bar_width(&self) -> (r: Rat)
        ensures
            r@ == self.width_val(),
    {
        self.bar_width
    }

    pub fn offset(&self) -> (r: Rat)
        ensures
            r@ == self.offset_val(),
    {
        self.offset
    }

    pub fn orientation(&self) -> (r: Orientation)
        ensures
            r == self.orientation_val(),
    {
        self.orientation
    }

    pub fn label_position(&self) -> (r: BarLabelPosition)
        ensures
            r == self.label_position_val(),
    {
        self.label_position
    }

    pub fn label_visible(&self) -> (r: bool)
        ensures
            r == self.label_visible_val(),
    {
        self.label_visible
    }

    pub fn rounding_precision(&self) -> (r: Option<usize>)
        ensures
            r == self.rounding_val(),
    {
        self.rounding_precision
    }
}

} // verus!
