use ddo_trace::chart::{bounds_view, color, fringe_view, view, y_range, Marker, Mode, SeriesKind};
use ddo_trace::trace::Trace;

const RUN: &str = "Explored 5900, LB 11, UB 14, Fringe sz 890
Explored 6400, LB 11, UB 13, Fringe sz 390
Explored 6700, LB 12, UB 12, Fringe sz 90
Final 12, Explored 6790
";

fn named(text: &str, name: &str) -> Trace {
    Trace::build(text, Some(name.to_string())).unwrap()
}

#[test]
fn range_of_empty_trace() {
    let traces = vec![Trace::from("")];
    assert_eq!((-1, 1), y_range(&traces, Mode::Bounds));
    assert_eq!((-1, 1), y_range(&traces, Mode::Frontier));
    assert_eq!((-1, 1), y_range(&[], Mode::Bounds));
}

#[test]
fn range_of_bounds() {
    let traces = vec![Trace::from(RUN)];
    assert_eq!((10, 15), y_range(&traces, Mode::Bounds));
}

#[test]
fn range_of_frontier() {
    let traces = vec![Trace::from(RUN)];
    assert_eq!((-1, 891), y_range(&traces, Mode::Frontier));
}

#[test]
fn range_spans_every_trace() {
    let traces = vec![
        Trace::from(RUN),
        Trace::from(""),
        Trace::from("Explored 1, LB -30, UB 2, Fringe sz 7000"),
    ];
    assert_eq!((-31, 15), y_range(&traces, Mode::Bounds));
    assert_eq!((-1, 7001), y_range(&traces, Mode::Frontier));
}

#[test]
fn range_with_crossed_bounds() {
    let traces = vec![Trace::from("Explored 6700, LB -11, UB -12, Fringe sz 90")];
    assert_eq!((-13, -10), y_range(&traces, Mode::Bounds));
}

#[test]
fn palette_cycles() {
    let expected = ["#C1EBE1", "#90B9A9", "#FF0000", "#00FF00", "#0000FF"];
    for i in 0..12 {
        assert_eq!(expected[i % 5], color(i));
    }
}

#[test]
fn legends() {
    let t = named(RUN, "knap");
    assert_eq!("knap - Lower Bound", t.lb_legend());
    assert_eq!("knap - Upper Bound", t.ub_legend());
    assert_eq!("knap - Frontier Size", t.fsz_legend());
    let u = Trace::from(RUN);
    assert_eq!("Lower Bound", u.lb_legend());
    assert_eq!("Upper Bound", u.ub_legend());
    assert_eq!("Frontier Size", u.fsz_legend());
}

#[test]
fn projections_follow_records() {
    let t = Trace::from(RUN);
    assert_eq!(vec![(5900, 11), (6400, 11), (6700, 12), (6790, 12)], t.lb_explored());
    assert_eq!(vec![(5900, 14), (6400, 13), (6700, 12), (6790, 12)], t.ub_explored());
    assert_eq!(vec![(5900, 890), (6400, 390), (6700, 90), (6790, 0)], t.fringe_explored());
}

#[test]
fn bounds_chart_has_two_series_per_trace() {
    let traces: Vec<Trace> = (0..6).map(|i| named(RUN, &format!("t{}", i))).collect();
    let chart = bounds_view(&traces);
    assert_eq!("Explored Nodes", chart.x_label);
    assert_eq!("Bound Value", chart.y_label);
    assert_eq!((10, 15), chart.y_range);
    assert_eq!(12, chart.series.len());
    assert_eq!("t0 - Lower Bound", chart.series[0].legend);
    assert_eq!(Marker::Circle, chart.series[0].marker);
    assert_eq!("t0 - Upper Bound", chart.series[1].legend);
    assert_eq!(Marker::Cross, chart.series[1].marker);
    assert_eq!("#C1EBE1", chart.series[0].color);
    assert_eq!("#90B9A9", chart.series[2].color);
    assert_eq!("#0000FF", chart.series[9].color);
    assert_eq!("#C1EBE1", chart.series[10].color);
    assert_eq!("#C1EBE1", chart.series[11].color);
    assert_eq!(traces[5].ub_explored(), chart.series[11].points);
}

#[test]
fn colors_ignore_content() {
    let a = vec![Trace::from(RUN), Trace::from(RUN), Trace::from(RUN)];
    let b = vec![Trace::from(""), named("Final 3, Explored 4", "x"), Trace::from("junk")];
    let ca = fringe_view(&a);
    let cb = fringe_view(&b);
    for i in 0..3 {
        assert_eq!(ca.series[i].color, cb.series[i].color);
        assert_eq!(color(i), ca.series[i].color);
    }
}

#[test]
fn frontier_chart_has_one_series_per_trace() {
    let traces = vec![Trace::from(RUN), named(RUN, "b")];
    let chart = view(&traces, Mode::Frontier);
    assert_eq!("Frontier Size", chart.y_label);
    assert_eq!((-1, 891), chart.y_range);
    assert_eq!(2, chart.series.len());
    assert_eq!("Frontier Size", chart.series[0].legend);
    assert_eq!("b - Frontier Size", chart.series[1].legend);
    assert_eq!(Marker::Square, chart.series[1].marker);
    assert_eq!("#90B9A9", chart.series[1].color);
    assert_eq!(traces[0].points(SeriesKind::FrontierSize), chart.series[0].points);
}
