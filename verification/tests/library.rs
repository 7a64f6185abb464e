use charts::rational::Rat;
use charts::scales::band::ScaleBand;
use charts::scales::linear::ScaleLinear;
use charts::scales::{AnyScale, ScaleError, ScaleType};
use charts::components::legend::{LegendEntry, LegendMarkerType};
use charts::legend::Legend;
use charts::views::vertical_bar::VerticalBarView;
use charts::views::DataError;
use charts::chart::{Chart, ChartError};
use charts::axis::AxisPosition;
use charts::colors::Color;

fn rat(n: i64, d: i64) -> Rat {
    Rat::new(n, d).unwrap()
}

fn assert_rat_eq(a: &Rat, n: i64, d: i64) {
    let b = rat(n, d);
    assert!(a.eq_value(&b), "expected {}/{}, got {}/{}", n, d, a.numerator(), a.denominator());
}

#[test]
fn it_works() {
    assert_eq!(2 + 2, 4);
}

#[test]
fn rational_arithmetic_is_exact() {
    let a = rat(1, 3);
    let b = rat(1, 6);
    assert_rat_eq(&a.add(&b), 1, 2);
    assert_rat_eq(&a.sub(&b), 1, 6);
    assert_rat_eq(&a.mul(&b), 1, 18);
    assert_rat_eq(&a.div(&b), 2, 1);
    assert!(rat(1, 2).lt(&rat(2, 3)));
    assert_eq!(rat(7, 2).floor(), 3);
    assert_eq!(rat(-7, 2).floor(), -4);
    assert_eq!(rat(7, 2).ceil(), 4);
    assert_eq!(rat(-7, 2).ceil(), -3);
    assert!(Rat::new(1, 0).is_none());
}

#[test]
fn band_scale_default_padding_step_and_bandwidth() {
    // domain ["A","B","C"], range [0,700], padding 0.1/0.1:
    // the step denominator is 3 - 0.1 + 0.2 = 3.1, so step = 7000/31
    // and bandwidth = step * 0.9 = 6300/31 < step.
    let scale = ScaleBand::new()
        .set_domain(vec!["A".to_string(), "B".to_string(), "C".to_string()])
        .set_range(vec![0, 700]);
    let a = scale.scale(&"A".to_string()).unwrap();
    let b = scale.scale(&"B".to_string()).unwrap();
    let c = scale.scale(&"C".to_string()).unwrap();
    let bw = scale.bandwidth().unwrap();
    let step = b.sub(&a);
    assert_rat_eq(&step, 7000, 31);
    assert_rat_eq(&c.sub(&b), 7000, 31);
    assert_rat_eq(&bw, 6300, 31);
    assert!(bw.lt(&step));
    // offsets: start' = step * (0.1 + (0.2 * 0.5)) = step * 0.2
    assert_rat_eq(&a, 700, 31);
    assert_eq!(scale.get_type(), ScaleType::Band);
    assert_eq!(scale.get_ticks().len(), 3);
}

#[test]
fn band_scale_deduplicates_domain_keeping_first() {
    let scale = ScaleBand::new()
        .set_domain(vec![
            "A".to_string(),
            "B".to_string(),
            "A".to_string(),
            "C".to_string(),
            "B".to_string(),
        ])
        .set_range(vec![0, 300]);
    let ticks = scale.get_ticks();
    assert_eq!(ticks.len(), 3);
    assert_eq!(ticks[0], "A");
    assert_eq!(ticks[1], "B");
    assert_eq!(ticks[2], "C");
}

#[test]
fn band_scale_reversed_range_mirrors_offsets() {
    let asc = ScaleBand::new()
        .set_domain(vec!["A".to_string(), "B".to_string()])
        .set_range(vec![0, 100]);
    let desc = ScaleBand::new()
        .set_domain(vec!["A".to_string(), "B".to_string()])
        .set_range(vec![100, 0]);
    let a_asc = asc.scale(&"A".to_string()).unwrap();
    let b_asc = asc.scale(&"B".to_string()).unwrap();
    let a_desc = desc.scale(&"A".to_string()).unwrap();
    let b_desc = desc.scale(&"B".to_string()).unwrap();
    // the range is stored ascending and the offsets are mirrored
    assert!(a_desc.eq_value(&b_asc));
    assert!(b_desc.eq_value(&a_asc));
    assert_eq!(desc.range_start(), 0);
    assert_eq!(desc.range_end(), 100);
}

#[test]
fn band_scale_unknown_category_fails() {
    let scale = ScaleBand::new()
        .set_domain(vec!["A".to_string()])
        .set_range(vec![0, 100]);
    assert!(scale.scale(&"Z".to_string()).is_err());
}

#[test]
fn band_scale_rescale_is_idempotent() {
    let domain = vec!["A".to_string(), "B".to_string(), "C".to_string()];
    let s1 = ScaleBand::new().set_domain(domain.clone()).set_range(vec![0, 700]);
    let s2 = ScaleBand::new().set_domain(domain.clone()).set_range(vec![0, 700]);
    // re-running the scale construction with identical inputs yields
    // identical offsets
    for cat in domain.iter() {
        let o1 = s1.scale(cat).unwrap();
        let o2 = s2.scale(cat).unwrap();
        assert!(o1.eq_value(&o2));
        assert_eq!(o1.numerator(), o2.numerator());
        assert_eq!(o1.denominator(), o2.denominator());
    }
}

#[test]
fn linear_scale_maps_endpoints_exactly() {
    let scale = ScaleLinear::new()
        .set_domain(vec![rat(0, 1), rat(100, 1)])
        .set_range(vec![500, 0]);
    // endpoint exactness, with the caller-given (descending) order kept
    assert_rat_eq(&scale.scale(&rat(0, 1)), 500, 1);
    assert_rat_eq(&scale.scale(&rat(100, 1)), 0, 1);
    assert_rat_eq(&scale.scale(&rat(50, 1)), 250, 1);
    assert!(scale.is_range_reversed());
    assert_eq!(scale.range_start(), 500);
    assert_eq!(scale.range_end(), 0);
}

#[test]
fn linear_scale_monotonic_in_range_direction() {
    let up = ScaleLinear::new()
        .set_domain(vec![rat(0, 1), rat(10, 1)])
        .set_range(vec![0, 100]);
    let down = ScaleLinear::new()
        .set_domain(vec![rat(0, 1), rat(10, 1)])
        .set_range(vec![100, 0]);
    assert!(up.scale(&rat(2, 1)).lt(&up.scale(&rat(3, 1))));
    assert!(down.scale(&rat(3, 1)).lt(&down.scale(&rat(2, 1))));
}

#[test]
fn linear_scale_degenerate_domain_maps_to_midpoint() {
    let scale = ScaleLinear::new()
        .set_domain(vec![rat(5, 1), rat(5, 1)])
        .set_range(vec![100, 300]);
    // d0 == d1: every input lands on (range_start + range_end) / 2
    assert_rat_eq(&scale.scale(&rat(5, 1)), 200, 1);
    assert_rat_eq(&scale.scale(&rat(7, 1)), 200, 1);
}

#[test]
fn linear_ticks_snap_to_ten_for_domain_0_100() {
    let scale = ScaleLinear::new()
        .set_domain(vec![rat(0, 1), rat(100, 1)])
        .set_range(vec![0, 500]);
    let ticks = scale.get_ticks();
    assert_eq!(ticks.len(), 11);
    for (i, t) in ticks.iter().enumerate() {
        assert_rat_eq(t, (i as i64) * 10, 1);
    }
}

#[test]
fn linear_ticks_fractional_step() {
    let scale = ScaleLinear::new()
        .set_domain(vec![rat(0, 1), rat(1, 1)])
        .set_range(vec![0, 500]);
    let ticks = scale.get_ticks();
    // raw step 0.1 snaps to 0.1: ticks at every tenth
    assert_eq!(ticks.len(), 11);
    assert_rat_eq(&ticks[1], 1, 10);
    assert_rat_eq(&ticks[10], 1, 1);
}

#[test]
fn linear_ticks_floor_for_fractional_raw_step() {
    // domain [0,5]: the raw step 0.5 has floor(log10) == -1, the scaled
    // error 5 snaps to 5, so the increment is 0.5 -- not 1
    let scale = ScaleLinear::new()
        .set_domain(vec![rat(0, 1), rat(5, 1)])
        .set_range(vec![0, 500]);
    let ticks = scale.get_ticks();
    assert_eq!(ticks.len(), 11);
    assert_rat_eq(&ticks[1], 1, 2);
    assert_rat_eq(&ticks[7], 7, 2);
    assert_rat_eq(&ticks[10], 5, 1);
}

#[test]
fn linear_ticks_degenerate_and_descending_domains() {
    let flat = ScaleLinear::new()
        .set_domain(vec![rat(3, 1), rat(3, 1)])
        .set_range(vec![0, 100]);
    let t = flat.get_ticks();
    assert_eq!(t.len(), 1);
    assert_rat_eq(&t[0], 3, 1);
    let back = ScaleLinear::new()
        .set_domain(vec![rat(10, 1), rat(0, 1)])
        .set_range(vec![0, 100]);
    assert_eq!(back.get_ticks().len(), 0);
}

#[test]
fn stacking_accumulates_blocks_through_the_scale() {
    // rows [("A",70,"foo"),("A",20,"bar"),("A",5,"baz")], Y [0,100]->[500,0]:
    // three contiguous blocks; the total span equals scale(0) - scale(95)
    let x = ScaleBand::new()
        .set_domain(vec!["A".to_string()])
        .set_range(vec![0, 100]);
    let y = ScaleLinear::new()
        .set_domain(vec![rat(0, 1), rat(100, 1)])
        .set_range(vec![500, 0]);
    let data: Vec<(String, Rat, String)> = vec![
        ("A".to_string(), rat(70, 1), "foo".to_string()),
        ("A".to_string(), rat(20, 1), "bar".to_string()),
        ("A".to_string(), rat(5, 1), "baz".to_string()),
    ];
    let view = VerticalBarView::new()
        .set_x_scale(x)
        .set_y_scale(y)
        .set_keys(vec!["foo".to_string(), "bar".to_string(), "baz".to_string()])
        .load_data(&data)
        .unwrap();
    let bars = view.bars();
    assert_eq!(bars.len(), 1);
    let bar = &bars[0];
    assert_eq!(bar.category(), "A");
    let blocks = bar.blocks();
    assert_eq!(blocks.len(), 3);
    // scale(0)=500, scale(70)=150, scale(90)=50, scale(95)=25
    assert_rat_eq(&blocks[0].start(), 150, 1);
    assert_rat_eq(&blocks[0].end(), 500, 1);
    assert_rat_eq(&blocks[1].start(), 50, 1);
    assert_rat_eq(&blocks[1].end(), 150, 1);
    assert_rat_eq(&blocks[2].start(), 25, 1);
    assert_rat_eq(&blocks[2].end(), 50, 1);
    // total span = scale(0) - scale(95) = 475
    let span = blocks[0].end().sub(&blocks[2].start());
    assert_rat_eq(&span, 475, 1);
    assert_rat_eq(&blocks[1].value(), 20, 1);
    assert_eq!(blocks[0].color(), "#1f77b4");
    assert_eq!(blocks[1].color(), "#ff7f0e");
}

#[test]
fn stacking_requires_scales() {
    let data: Vec<(String, Rat, String)> =
        vec![("A".to_string(), rat(1, 1), "k".to_string())];
    let err = match VerticalBarView::new().load_data(&data) {
        Ok(_) => panic!("expected an error"),
        Err(e) => e,
    };
    assert_eq!(err, DataError::WrongXScale);
    let x = ScaleBand::new()
        .set_domain(vec!["A".to_string()])
        .set_range(vec![0, 100]);
    let err2 = match VerticalBarView::new().set_x_scale(x).load_data(&data) {
        Ok(_) => panic!("expected an error"),
        Err(e) => e,
    };
    assert_eq!(err2, DataError::WrongYScale);
}

#[test]
fn stacking_category_missing_from_band_domain_fails() {
    let x = ScaleBand::new()
        .set_domain(vec!["B".to_string()])
        .set_range(vec![0, 100]);
    let y = ScaleLinear::new()
        .set_domain(vec![rat(0, 1), rat(10, 1)])
        .set_range(vec![100, 0]);
    let data: Vec<(String, Rat, String)> =
        vec![("A".to_string(), rat(1, 1), "k".to_string())];
    let err = match VerticalBarView::new().set_x_scale(x).set_y_scale(y).load_data(&data) {
        Ok(_) => panic!("expected an error"),
        Err(e) => e,
    };
    assert_eq!(err, DataError::UnknownCategory);
}

#[test]
fn stacking_keys_not_listed_drop_rows() {
    let x = ScaleBand::new()
        .set_domain(vec!["A".to_string()])
        .set_range(vec![0, 100]);
    let y = ScaleLinear::new()
        .set_domain(vec![rat(0, 1), rat(10, 1)])
        .set_range(vec![100, 0]);
    let data: Vec<(String, Rat, String)> = vec![
        ("A".to_string(), rat(1, 1), "known".to_string()),
        ("A".to_string(), rat(2, 1), "stray".to_string()),
    ];
    let view = VerticalBarView::new()
        .set_x_scale(x)
        .set_y_scale(y)
        .set_keys(vec!["known".to_string()])
        .load_data(&data)
        .unwrap();
    assert_eq!(view.bars().len(), 1);
    assert_eq!(view.bars()[0].blocks().len(), 1);
}

#[test]
fn legend_wrap_is_greedy_and_never_wraps_an_empty_row() {
    // three entries of equal width 104 (twelve letters), available 250:
    // row 0 holds two entries, row 1 holds the third
    let label = "abcdefghijkl".to_string(); // 12 letters -> width 104
    let entries = vec![
        LegendEntry::new(LegendMarkerType::Square, "#111111".to_string(), "none".to_string(), label.clone()),
        LegendEntry::new(LegendMarkerType::Square, "#222222".to_string(), "none".to_string(), label.clone()),
        LegendEntry::new(LegendMarkerType::Square, "#333333".to_string(), "none".to_string(), label.clone()),
    ];
    assert_eq!(entries[0].get_width(), 104);
    let legend = Legend::new(entries, 250);
    let placed = legend.layout();
    assert_eq!(placed.len(), 3);
    assert_eq!((placed[0].x, placed[0].y), (0, 0));
    assert_eq!((placed[1].x, placed[1].y), (114, 0));
    assert_eq!((placed[2].x, placed[2].y), (0, 20));
    // a row never wraps while empty, even when the entry does not fit
    let wide = vec![LegendEntry::new(
        LegendMarkerType::Line,
        "#444444".to_string(),
        "none".to_string(),
        "abcdefghijkl".to_string(),
    )];
    let cramped = Legend::new(wide, 50);
    let p = cramped.layout();
    assert_eq!((p[0].x, p[0].y), (0, 0));
    // an empty legend lays out to nothing
    let empty = Legend::new(Vec::new(), 100);
    assert_eq!(empty.layout().len(), 0);
}

#[test]
fn chart_geometry_and_legend_placement() {
    let chart = Chart::new();
    assert_eq!(chart.get_chart_width(), 800);
    assert_eq!(chart.get_chart_height(), 600);
    assert_eq!(chart.get_view_width(), 700);
    assert_eq!(chart.get_view_height(), 460);
    let chart = chart.set_width(1000).set_height(500).set_margins(10, 20, 30, 40);
    assert_eq!(chart.get_view_width(), 940);
    assert_eq!(chart.get_view_height(), 460);
    let chart = chart.add_legend_at(AxisPosition::Bottom);
    // no bottom axis: the reserved axis height is 16
    let (w, x, y) = chart.legend_placement().unwrap();
    assert_eq!(w, 940);
    assert_eq!(x, 40);
    assert_eq!(y, 500 - 30 + 16);
}

#[test]
fn chart_axis_label_requires_axis() {
    let err = match Chart::new().add_left_axis_label("Y".to_string()) {
        Ok(_) => panic!("expected an error"),
        Err(e) => e,
    };
    assert_eq!(err, ChartError::AxisMissing);
}

#[test]
fn chart_axes_hold_band_centers() {
    let band = ScaleBand::new()
        .set_domain(vec!["A".to_string(), "B".to_string()])
        .set_range(vec![0, 100]);
    let chart = Chart::new()
        .add_axis_bottom(&AnyScale::Band(&band))
        .unwrap();
    let axis = chart.bottom_axis_ref().as_ref().unwrap();
    assert_eq!(axis.ticks().len(), 2);
    assert!(!axis.has_label());
    let chart = chart.add_bottom_axis_label("cats".to_string()).unwrap();
    assert!(chart.bottom_axis_ref().as_ref().unwrap().has_label());
}

#[test]
fn color_palettes() {
    let c10 = Color::color_scheme_10();
    assert_eq!(c10.len(), 10);
    assert_eq!(c10[0].as_hex(), "#1f77b4");
    assert_eq!(Color::color_scheme_tableau_10().len(), 10);
    assert_eq!(Color::color_scheme_dark().len(), 8);
    let own = Color::from_vec_of_hex_strings(vec!["#000000", "#ffffff"]);
    assert_eq!(own[1].as_hex(), "#ffffff");
}

#[test]
fn scale_error_messages() {
    assert!(ScaleError::UnknownCategory.message().contains("domain"));
    assert!(DataError::WrongXScale.message().contains("Band"));
    assert!(DataError::WrongYScale.message().contains("Linear"));
}
