use charts::rational::Rat;
use charts::scales::band::ScaleBand;
use charts::scales::linear::ScaleLinear;
use charts::views::scatter::ScatterView;
use charts::views::line::LineSeriesView;
use charts::views::area::AreaSeriesView;
use charts::views::{DataError, ViewScale};

fn rat(n: i64, d: i64) -> Rat {
    Rat::new(n, d).unwrap()
}

fn linear(d0: i64, d1: i64, r0: isize, r1: isize) -> ScaleLinear {
    ScaleLinear::new()
        .set_domain(vec![rat(d0, 1), rat(d1, 1)])
        .set_range(vec![r0, r1])
}

#[test]
fn scatter_points_scale_both_dimensions() {
    let x = linear(0, 10, 0, 100);
    let y = linear(0, 10, 100, 0);
    let data: Vec<(Rat, Rat)> = vec![(rat(0, 1), rat(0, 1)), (rat(5, 1), rat(10, 1))];
    let view = ScatterView::new()
        .set_x_scale(ViewScale::Linear(x))
        .set_y_scale(ViewScale::Linear(y))
        .load_data(&data)
        .unwrap();
    let pts = view.points();
    assert_eq!(pts.len(), 2);
    assert!(pts[0].get_x().eq_value(&rat(0, 1)));
    assert!(pts[0].get_y().eq_value(&rat(100, 1)));
    assert!(pts[1].get_x().eq_value(&rat(50, 1)));
    assert!(pts[1].get_y().eq_value(&rat(0, 1)));
}

#[test]
fn scatter_band_x_lands_on_band_centers() {
    let band = ScaleBand::new()
        .set_domain(vec!["A".to_string()])
        .set_range(vec![0, 100]);
    // one band: step = 100/1.1 = 1000/11, offset = 100/11, bw = 900/11;
    // center = 100/11 + 450/11 = 50
    let y = linear(0, 10, 100, 0);
    let data: Vec<(String, Rat, String)> =
        vec![("A".to_string(), rat(5, 1), "".to_string())];
    let view = ScatterView::new()
        .set_x_scale(ViewScale::Band(band))
        .set_y_scale(ViewScale::Linear(y))
        .load_data(&data)
        .unwrap();
    assert!(view.points()[0].get_x().eq_value(&rat(50, 1)));
}

#[test]
fn scatter_missing_scale_or_key_fails() {
    let data: Vec<(Rat, Rat)> = vec![(rat(1, 1), rat(1, 1))];
    let err = match ScatterView::new().load_data(&data) {
        Ok(_) => panic!("expected an error"),
        Err(e) => e,
    };
    assert_eq!(err, DataError::MissingScale);
    let view = ScatterView::new()
        .set_x_scale(ViewScale::Linear(linear(0, 10, 0, 100)))
        .set_y_scale(ViewScale::Linear(linear(0, 10, 100, 0)))
        .set_keys(vec!["only".to_string()]);
    let err2 = match view.load_data(&data) {
        Ok(_) => panic!("expected an error"),
        Err(e) => e,
    };
    assert_eq!(err2, DataError::UnknownKey);
}

#[test]
fn line_series_groups_points_by_key() {
    let data: Vec<(Rat, Rat, String)> = vec![
        (rat(0, 1), rat(1, 1), "a".to_string()),
        (rat(1, 1), rat(2, 1), "b".to_string()),
        (rat(2, 1), rat(3, 1), "a".to_string()),
    ];
    let view = LineSeriesView::new()
        .set_x_scale(ViewScale::Linear(linear(0, 10, 0, 100)))
        .set_y_scale(ViewScale::Linear(linear(0, 10, 100, 0)))
        .load_data(&data)
        .unwrap();
    let series = view.series();
    assert_eq!(series.len(), 2);
    assert_eq!(series[0].points().len(), 2);
    assert_eq!(series[1].points().len(), 1);
    assert_eq!(series[0].color(), "#1f77b4");
    assert_eq!(series[1].color(), "#ff7f0e");
    assert!(series[0].points()[1].get_x().eq_value(&rat(20, 1)));
}

#[test]
fn area_series_closes_to_the_baseline() {
    let data: Vec<(Rat, Rat)> = vec![(rat(0, 1), rat(5, 1)), (rat(10, 1), rat(10, 1))];
    let view = AreaSeriesView::new()
        .set_x_scale(ViewScale::Linear(linear(0, 10, 0, 100)))
        .set_y_scale(ViewScale::Linear(linear(0, 10, 100, 0)))
        .load_data(&data)
        .unwrap();
    let series = view.series();
    assert_eq!(series.len(), 1);
    let pts = series[0].points();
    assert_eq!(pts.len(), 4);
    // reversed Y range: the baseline is range_start = 100
    assert!(pts[2].get_y().eq_value(&rat(100, 1)));
    assert!(pts[3].get_y().eq_value(&rat(100, 1)));
    assert!(pts[2].get_x().eq_value(&rat(100, 1)));
    assert!(pts[3].get_x().eq_value(&rat(0, 1)));
    assert!(!pts[2].point_visible());
}
