//! Legend layout: wrap an ordered list of entries into rows of a given
//! available width. Every entry occupies the widest entry's width (a
//! single fixed-width-per-row simplification); a greedy single pass
//! places each entry at the current row offset and wraps to a new row
//! when one more maximal entry would not fit — unless the row is still
//! empty, which never wraps.

use vstd::prelude::*;
use crate::components::legend::LegendEntry;

verus! {

/// The widest entry width in the list (zero when empty).
pub open spec fn max_entry_width(ws: Seq<int>) -> int
    decreases ws.len(),
{
    if ws.len() == 0 {
        0
    } else {
        let rest = max_entry_width(ws.drop_last());
        if ws.last() > rest {
            ws.last()
        } else {
            rest
        }
    }
}

/// Apply the wrap rule to a layout state: wrap to a fresh row when
/// adding one more maximal width would overflow the available width and
/// the row is non-empty.
pub open spec fn legend_wrap(st: (int, int), maxw: int, avail: int) -> (int, int) {
    if st.0 + maxw > avail && st.0 > 0 {
        (0, st.1 + 1)
    } else {
        st
    }
}

/// The layout state (accumulated row width, row index) after placing
/// `n` entries, each advancing by `maxw` plus the fixed gap of 10.
pub open spec fn legend_state(n: int, maxw: int, avail: int) -> (int, int)
    decreases n,
{
    if n <= 0 {
        (0, 0)
    } else {
        let placed = legend_wrap(legend_state(n - 1, maxw, avail), maxw, avail);
        (placed.0 + maxw + 10, placed.1)
    }
}

/// The position (row offset, row index) where entry `i` is placed.
pub open spec fn legend_place(i: int, maxw: int, avail: int) -> (int, int) {
    legend_wrap(legend_state(i, maxw, avail), maxw, avail)
}

/// A laid-out legend entry: its x offset and y offset in pixels.
pub struct PlacedEntry {
    pub x: u64,
    pub y: u64,
}

/// The legend: entries and the width available to lay them out in.
pub struct Legend {
    width: usize,
    entries: Vec<LegendEntry>,
}

impl Legend {
    pub closed spec fn entries_view(&self) -> Seq<LegendEntry> {
        self.entries@
    }

    pub closed spec fn width_val(&self) -> int {
        self.width as int
    }

    /// The widths the layout packs by.
    pub open spec fn widths(&self) -> Seq<int> {
        self.entries_view().map_values(|e: LegendEntry| e.width_spec())
    }

    /// Create a new legend instance.
    pub fn new(entries: Vec<LegendEntry>, width: usize) -> (l: Legend)
        ensures
            l.entries_view() == entries@,
            l.width_val() == width as int,
    {
        Legend { entries, width }
    }

    pub fn entries(&self) -> (r: &Vec<LegendEntry>)
        ensures
            r@ == self.entries_view(),
    {
        &self.entries
    }

    /// Lay the entries out: entry `i` goes to the greedy position
    /// `legend_place(i)`, scaled to pixels by the fixed row height 20.
    /// An empty legend yields an empty layout.
    pub fn layout(&self) -> (out: Vec<PlacedEntry>)
        requires
            self.entries_view().len() <= 0x10_0000,
            forall|i: int|
                0 <= i < self.entries_view().len() ==> (#[trigger] self.entries_view()[i])
                    .label_val().len() <= 0x10_0000,
        ensures
            out@.len() == self.entries_view().len(),
            forall|i: int|
                0 <= i < out@.len() ==> {
                    let p = legend_place(
                        i,
                        max_entry_width(self.widths()),
                        self.width_val(),
                    );
                    (#[trigger] out@[i]).x == p.0 && out@[i].y == p.1 * 20
                },
    {
        let n = self.entries.len();
        let mut maxw: usize = 0;
        let mut i: usize = 0;
        while i < n
            invariant
                0 <= i <= n,
                n == self.entries_view().len(),
                n <= 0x10_0000,
                forall|k: int|
                    0 <= k < n ==> (#[trigger] self.entries_view()[k]).label_val().len()
                        <= 0x10_0000,
                maxw as int == max_entry_width(self.widths().take(i as int)),
                maxw <= 0x70_0014,
            decreases n - i,
        {
            let w = self.entries[i].get_width();
            proof {
                assert(self.widths().take((i + 1) as int).drop_last() =~= self.widths().take(
                    i as int,
                ));
                assert(self.widths().take((i + 1) as int).last() == self.entries_view()[i as int]
                    .width_spec());
            }
            if w > maxw {
                maxw = w;
            }
            i = i + 1;
        }
        proof {
            assert(self.widths().take(n as int) =~= self.widths());
        }
        let mut out: Vec<PlacedEntry> = Vec::new();
        let avail: u64 = self.width as u64;
        let mut acc: u64 = 0;
        let mut row: u64 = 0;
        let mut j: usize = 0;
        while j < n
            invariant
                0 <= j <= n,
                n <= 0x10_0000,
                n == self.entries_view().len(),
                out@.len() == j,
                maxw <= 0x70_0014,
                acc as int <= (j as int) * ((maxw as int) + 10),
                acc <= 0x800_0000_0000,
                row <= j,
                avail == self.width_val(),
                (acc as int, row as int) == legend_state(
                    j as int,
                    maxw as int,
                    self.width_val(),
                ),
                forall|k: int|
                    0 <= k < j ==> {
                        let p = legend_place(k, maxw as int, self.width_val());
                        (#[trigger] out@[k]).x == p.0 && out@[k].y == p.1 * 20
                    },
            decreases n - j,
        {
            proof {
                assert((j as int + 1) * ((maxw as int) + 10) <= 0x800_0000_0000
                    && (j as int) * ((maxw as int) + 10) + ((maxw as int) + 10) == (j as int + 1)
                    * ((maxw as int) + 10) && (maxw as int) + 10 <= (j as int + 1) * ((
                maxw as int) + 10)) by (nonlinear_arith)
                    requires
                        0 <= j < 0x10_0000,
                        0 <= maxw <= 0x70_0014,
                ;
            }
            let x: u64;
            let y_row: u64;
            if acc + (maxw as u64) > avail && acc > 0 {
                x = 0;
                y_row = row + 1;
            } else {
                x = acc;
                y_row = row;
            }
            out.push(PlacedEntry { x, y: y_row * 20 });
            acc = x + (maxw as u64) + 10;
            row = y_row;
            j = j + 1;
        }
        out
    }
}

/// Law (greedy wrap): entry `i` is placed at the running layout state,
/// wrapped to the start of a fresh row exactly when one more maximal
/// entry width would overflow the available width while the current row
/// already holds an entry.
pub proof fn lemma_legend_wrap_rule(i: int, maxw: int, avail: int)
    ensures
        ({
            let st = legend_state(i, maxw, avail);
            &&& (st.0 + maxw > avail && st.0 > 0 ==> legend_place(i, maxw, avail) == (
                0int,
                st.1 + 1,
            ))
            &&& (!(st.0 + maxw > avail && st.0 > 0) ==> legend_place(i, maxw, avail) == st)
        }),
{
}

/// Law (no wrap on an empty row): an entry that starts a row is placed
/// there even when it does not fit.
pub proof fn lemma_legend_never_wraps_empty_row(i: int, maxw: int, avail: int)
    requires
        legend_state(i, maxw, avail).0 == 0,
    ensures
        legend_place(i, maxw, avail) == legend_state(i, maxw, avail),
{
}

} // verus!
