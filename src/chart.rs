//! The description of a chart: one styled point series per metric and trace,
//! axis labels and the range of the vertical axis. Drawing it is left to a
//! rendering backend.
use vstd::prelude::*;
use vstd::string::StringExecFns;
use crate::record::{LogLine, Metric};
use crate::trace::Trace;

verus! {

/// What a chart shows: the two bounds, or the size of the frontier.
#[derive(Clone, Copy, Debug, PartialEq, Eq, Structural)]
pub enum Mode {
    Bounds,
    Frontier,
}

/// The metric that a series follows.
#[derive(Clone, Copy, Debug, PartialEq, Eq, Structural)]
pub enum SeriesKind {
    LowerBound,
    UpperBound,
    FrontierSize,
}

/// The shape that marks the points of a series.
#[derive(Clone, Copy, Debug, PartialEq, Eq, Structural)]
pub enum Marker {
    Circle,
    Cross,
    Square,
}

/// The number of colours that the traces of a chart take in turn.
pub const PALETTE_SIZE: usize = 5;

/// The colour of slot `k` of the palette.
pub open spec fn palette(k: int) -> Seq<char> {
    if k == 0 {
        "#C1EBE1"@
    } else if k == 1 {
        "#90B9A9"@
    } else if k == 2 {
        "#FF0000"@
    } else if k == 3 {
        "#00FF00"@
    } else {
        "#0000FF"@
    }
}

pub open spec fn marker_of(kind: SeriesKind) -> Marker {
    match kind {
        SeriesKind::LowerBound => Marker::Circle,
        SeriesKind::UpperBound => Marker::Cross,
        SeriesKind::FrontierSize => Marker::Square,
    }
}

pub open spec fn label_of(kind: SeriesKind) -> Seq<char> {
    match kind {
        SeriesKind::LowerBound => "Lower Bound"@,
        SeriesKind::UpperBound => "Upper Bound"@,
        SeriesKind::FrontierSize => "Frontier Size"@,
    }
}

pub open spec fn suffix_of(kind: SeriesKind) -> Seq<char> {
    match kind {
        SeriesKind::LowerBound => " - Lower Bound"@,
        SeriesKind::UpperBound => " - Upper Bound"@,
        SeriesKind::FrontierSize => " - Frontier Size"@,
    }
}

/// The legend of a series: the trace's name and the metric, or the metric
/// alone for a trace without a name.
pub open spec fn legend_of(name: Option<String>, kind: SeriesKind) -> Seq<char> {
    match name {
        Some(n) => n@ + suffix_of(kind),
        None => label_of(kind),
    }
}

pub open spec fn value_of(m: Metric, kind: SeriesKind) -> int {
    match kind {
        SeriesKind::LowerBound => m.lb(),
        SeriesKind::UpperBound => m.ub(),
        SeriesKind::FrontierSize => m.fringe(),
    }
}

/// The points `(explored, metric)` of the records, in their order.
pub open spec fn points_of(records: Seq<Metric>, kind: SeriesKind) -> Seq<(int, int)> {
    records.map_values(|m: Metric| (m.explored(), value_of(m, kind)))
}

pub open spec fn points_view(v: Seq<(usize, i128)>) -> Seq<(int, int)> {
    v.map_values(|p: (usize, i128)| (p.0 as int, p.1 as int))
}

/// One series of points with its legend and style.
pub struct Series {
    pub legend: String,
    pub marker: Marker,
    pub color: &'static str,
    pub points: Vec<(usize, i128)>,
}

/// `s` draws metric `kind` of trace `tr` in colour `color`.
pub open spec fn is_series(s: Series, tr: Trace, kind: SeriesKind, color: Seq<char>) -> bool {
    &&& s.legend@ == legend_of(tr.name, kind)
    &&& s.marker == marker_of(kind)
    &&& s.color@ == color
    &&& points_view(s.points@) == points_of(tr.records(), kind)
}

/// The colour of the trace at position `i` of a chart.
pub fn color(i: usize) -> (r: &'static str)
    ensures
        r@ == palette(i as int % PALETTE_SIZE as int),
{
    let k = i % PALETTE_SIZE;
    if k == 0 {
        "#C1EBE1"
    } else if k == 1 {
        "#90B9A9"
    } else if k == 2 {
        "#FF0000"
    } else if k == 3 {
        "#00FF00"
    } else {
        "#0000FF"
    }
}

fn label(kind: SeriesKind) -> (r: &'static str)
    ensures
        r@ == label_of(kind),
{
    match kind {
        SeriesKind::LowerBound => "Lower Bound",
        SeriesKind::UpperBound => "Upper Bound",
        SeriesKind::FrontierSize => "Frontier Size",
    }
}

fn suffix(kind: SeriesKind) -> (r: &'static str)
    ensures
        r@ == suffix_of(kind),
{
    match kind {
        SeriesKind::LowerBound => " - Lower Bound",
        SeriesKind::UpperBound => " - Upper Bound",
        SeriesKind::FrontierSize => " - Frontier Size",
    }
}

fn marker(kind: SeriesKind) -> (r: Marker)
    ensures
        r == marker_of(kind),
{
    match kind {
        SeriesKind::LowerBound => Marker::Circle,
        SeriesKind::UpperBound => Marker::Cross,
        SeriesKind::FrontierSize => Marker::Square,
    }
}

fn value(l: &LogLine, kind: SeriesKind) -> (r: i128)
    ensures
        r as int == value_of(l@, kind),
{
    match kind {
        SeriesKind::LowerBound => l.lb() as i128,
        SeriesKind::UpperBound => l.ub() as i128,
        SeriesKind::FrontierSize => l.fringe() as i128,
    }
}

impl Trace {
    /// The legend of the series of metric `kind` of this trace.
    pub fn legend(&self, kind: SeriesKind) -> (r: String)
        ensures
            r@ == legend_of(self.name, kind),
    {
        match &self.name {
            Some(n) => {
                let mut s = n.clone();
                s.append(suffix(kind));
                s
            },
            None => String::from_str(label(kind)),
        }
    }

    pub fn lb_legend(&self) -> (r: String)
        ensures
            r@ == legend_of(self.name, SeriesKind::LowerBound),
    {
        self.legend(SeriesKind::LowerBound)
    }

    pub fn ub_legend(&self) -> (r: String)
        ensures
            r@ == legend_of(self.name, SeriesKind::UpperBound),
    {
        self.legend(SeriesKind::UpperBound)
    }

    pub fn fsz_legend(&self) -> (r: String)
        ensures
            r@ == legend_of(self.name, SeriesKind::FrontierSize),
    {
        self.legend(SeriesKind::FrontierSize)
    }

    /// The points `(explored, metric)` of the trace, in record order.
    pub fn points(&self, kind: SeriesKind) -> (r: Vec<(usize, i128)>)
        ensures
            points_view(r@) == points_of(self.records(), kind),
    {
        let mut out: Vec<(usize, i128)> = Vec::new();
        let mut i: usize = 0;
        while i < self.lines.len()
            invariant
                i <= self.lines@.len(),
                points_view(out@) == points_of(self.records().subrange(0, i as int), kind),
            decreases self.lines@.len() - i,
        {
            let l = &self.lines[i];
            let ghost before = out@;
            let pt = (l.explored(), value(l, kind));
            out.push(pt);
            proof {
                let m = self.lines@[i as int]@;
                let head = self.records().subrange(0, i as int);
                assert(self.records().subrange(0, i + 1) =~= head.push(m));
                assert(points_of(head.push(m), kind) =~= points_of(head, kind).push(
                    (m.explored(), value_of(m, kind)),
                ));
                assert(points_view(out@) =~= points_view(before).push(
                    (pt.0 as int, pt.1 as int),
                ));
            }
            i = i + 1;
        }
        proof {
            assert(self.records().subrange(0, i as int) =~= self.records());
        }
        out
    }

    pub fn lb_explored(&self) -> (r: Vec<(usize, i128)>)
        ensures
            points_view(r@) == points_of(self.records(), SeriesKind::LowerBound),
    {
        self.points(SeriesKind::LowerBound)
    }

    pub fn ub_explored(&self) -> (r: Vec<(usize, i128)>)
        ensures
            points_view(r@) == points_of(self.records(), SeriesKind::UpperBound),
    {
        self.points(SeriesKind::UpperBound)
    }

    pub fn fringe_explored(&self) -> (r: Vec<(usize, i128)>)
        ensures
            points_view(r@) == points_of(self.records(), SeriesKind::FrontierSize),
    {
        self.points(SeriesKind::FrontierSize)
    }

    /// The series of metric `kind` of this trace, in colour `color`.
    pub fn plot(&self, kind: SeriesKind, color: &'static str) -> (r: Series)
        ensures
            is_series(r, *self, kind, color@),
    {
        Series {
            legend: self.legend(kind),
            marker: marker(kind),
            color,
            points: self.points(kind),
        }
    }

    pub fn lb_plot(&self, color: &'static str) -> (r: Series)
        ensures
            is_series(r, *self, SeriesKind::LowerBound, color@),
    {
        self.plot(SeriesKind::LowerBound, color)
    }

    pub fn ub_plot(&self, color: &'static str) -> (r: Series)
        ensures
            is_series(r, *self, SeriesKind::UpperBound, color@),
    {
        self.plot(SeriesKind::UpperBound, color)
    }

    pub fn fsz_plot(&self, color: &'static str) -> (r: Series)
        ensures
            is_series(r, *self, SeriesKind::FrontierSize, color@),
    {
        self.plot(SeriesKind::FrontierSize, color)
    }
}

/// The smallest value that a record puts on the vertical axis.
pub open spec fn low_of(m: Metric, mode: Mode) -> int {
    match mode {
        Mode::Bounds => if m.lb() <= m.ub() {
            m.lb()
        } else {
            m.ub()
        },
        Mode::Frontier => m.fringe(),
    }
}

/// The largest value that a record puts on the vertical axis.
pub open spec fn high_of(m: Metric, mode: Mode) -> int {
    match mode {
        Mode::Bounds => if m.lb() <= m.ub() {
            m.ub()
        } else {
            m.lb()
        },
        Mode::Frontier => m.fringe(),
    }
}

pub open spec fn has_records(traces: Seq<Trace>) -> bool {
    exists|i: int| 0 <= i < traces.len() && #[trigger] traces[i].records().len() > 0
}

/// `[lo, hi]` spans the values of every record of `traces` with a margin of
/// one on each side; it is `[-1, 1]` where there is no record.
pub open spec fn is_y_range(traces: Seq<Trace>, mode: Mode, lo: int, hi: int) -> bool {
    if !has_records(traces) {
        lo == -1 && hi == 1
    } else {
        &&& forall|i: int, k: int|
            0 <= i < traces.len() && 0 <= k < traces[i].records().len() ==> lo + 1 <= low_of(
                #[trigger] traces[i].records()[k],
                mode,
            ) && high_of(traces[i].records()[k], mode) <= hi - 1
        &&& exists|i: int, k: int|
            0 <= i < traces.len() && 0 <= k < traces[i].records().len() && low_of(
                #[trigger] traces[i].records()[k],
                mode,
            ) == lo + 1
        &&& exists|i: int, k: int|
            0 <= i < traces.len() && 0 <= k < traces[i].records().len() && high_of(
                #[trigger] traces[i].records()[k],
                mode,
            ) == hi - 1
    }
}

fn low_high(l: &LogLine, mode: Mode) -> (r: (i128, i128))
    ensures
        r.0 as int == low_of(l@, mode),
        r.1 as int == high_of(l@, mode),
{
    match mode {
        Mode::Bounds => {
            let a = l.lb() as i128;
            let b = l.ub() as i128;
            if a <= b {
                (a, b)
            } else {
                (b, a)
            }
        },
        Mode::Frontier => {
            let f = l.fringe() as i128;
            (f, f)
        },
    }
}

/// The range of the vertical axis of a chart of `traces`.
pub fn y_range(traces: &[Trace], mode: Mode) -> (r: (i128, i128))
    ensures
        is_y_range(traces@, mode, r.0 as int, r.1 as int),
{
    let mut seen = false;
    let mut lo: i128 = 0;
    let mut hi: i128 = 0;
    let ghost mut lo_at: (int, int) = (0, 0);
    let ghost mut hi_at: (int, int) = (0, 0);
    let mut i: usize = 0;
    while i < traces.len()
        invariant
            i <= traces@.len(),
            !seen ==> forall|j: int| 0 <= j < i ==> #[trigger] traces@[j].records().len() == 0,
            seen ==> forall|j: int, k: int|
                0 <= j < i && 0 <= k < traces@[j].records().len() ==> lo <= low_of(
                    #[trigger] traces@[j].records()[k],
                    mode,
                ) && high_of(traces@[j].records()[k], mode) <= hi,
            seen ==> 0 <= lo_at.0 < i && 0 <= lo_at.1 < traces@[lo_at.0].records().len()
                && low_of(traces@[lo_at.0].records()[lo_at.1], mode) == lo,
            seen ==> 0 <= hi_at.0 < i && 0 <= hi_at.1 < traces@[hi_at.0].records().len()
                && high_of(traces@[hi_at.0].records()[hi_at.1], mode) == hi,
            seen ==> i32::MIN <= lo && hi <= usize::MAX,
        decreases traces@.len() - i,
    {
        let lines = &traces[i].lines;
        let mut k: usize = 0;
        while k < lines.len()
            invariant
                i < traces@.len(),
                lines == traces@[i as int].lines,
                k <= lines@.len(),
                !seen ==> forall|j: int| 0 <= j < i ==> #[trigger] traces@[j].records().len() == 0,
                !seen ==> k == 0,
                seen ==> forall|j: int, q: int|
                    0 <= j < i && 0 <= q < traces@[j].records().len() ==> lo <= low_of(
                        #[trigger] traces@[j].records()[q],
                        mode,
                    ) && high_of(traces@[j].records()[q], mode) <= hi,
                seen ==> forall|q: int|
                    0 <= q < k ==> lo <= low_of(#[trigger] traces@[i as int].records()[q], mode)
                        && high_of(traces@[i as int].records()[q], mode) <= hi,
                seen ==> 0 <= lo_at.0 <= i && 0 <= lo_at.1 < traces@[lo_at.0].records().len()
                    && (lo_at.0 == i ==> lo_at.1 < k) && low_of(
                    traces@[lo_at.0].records()[lo_at.1],
                    mode,
                ) == lo,
                seen ==> 0 <= hi_at.0 <= i && 0 <= hi_at.1 < traces@[hi_at.0].records().len()
                    && (hi_at.0 == i ==> hi_at.1 < k) && high_of(
                    traces@[hi_at.0].records()[hi_at.1],
                    mode,
                ) == hi,
                seen ==> i32::MIN <= lo && hi <= usize::MAX,
            decreases lines@.len() - k,
        {
            let (a, b) = low_high(&lines[k], mode);
            assert(traces@[i as int].records()[k as int] == lines@[k as int]@);
            if !seen || a < lo {
                lo = a;
                proof {
                    lo_at = (i as int, k as int);
                }
            }
            if !seen || b > hi {
                hi = b;
                proof {
                    hi_at = (i as int, k as int);
                }
            }
            seen = true;
            k = k + 1;
        }
        i = i + 1;
    }
    if seen {
        proof {
            let j = lo_at.0;
            let q = lo_at.1;
            assert(traces@[j].records().len() > 0);
        }
        (lo - 1, hi + 1)
    } else {
        proof {
            if has_records(traces@) {
                let j = choose|j: int| 0 <= j < traces@.len() && #[trigger] traces@[j].records().len() > 0;
                assert(traces@[j].records().len() == 0);
            }
        }
        (-1, 1)
    }
}

/// A chart ready for a rendering backend.
pub struct Chart {
    pub x_label: &'static str,
    pub y_label: &'static str,
    pub y_range: (i128, i128),
    pub series: Vec<Series>,
}

pub open spec fn y_label_of(mode: Mode) -> Seq<char> {
    match mode {
        Mode::Bounds => "Bound Value"@,
        Mode::Frontier => "Frontier Size"@,
    }
}

/// The axes of a chart of `traces` in mode `mode`.
pub open spec fn has_axes(c: Chart, traces: Seq<Trace>, mode: Mode) -> bool {
    &&& c.x_label@ == "Explored Nodes"@
    &&& c.y_label@ == y_label_of(mode)
    &&& is_y_range(traces, mode, c.y_range.0 as int, c.y_range.1 as int)
}

/// `c` shows the bounds of `traces`: for the trace at position `i`, its lower
/// then its upper bound, in colour `i mod 5` of the palette.
pub open spec fn is_bounds_view(c: Chart, traces: Seq<Trace>) -> bool {
    &&& has_axes(c, traces, Mode::Bounds)
    &&& c.series@.len() == 2 * traces.len()
    &&& forall|i: int|
        0 <= i < traces.len() ==> is_series(
            #[trigger] c.series@[2 * i],
            traces[i],
            SeriesKind::LowerBound,
            palette(i % 5),
        ) && is_series(c.series@[2 * i + 1], traces[i], SeriesKind::UpperBound, palette(i % 5))
}

/// `c` shows the frontier of `traces`: one series for the trace at position
/// `i`, in colour `i mod 5` of the palette.
pub open spec fn is_fringe_view(c: Chart, traces: Seq<Trace>) -> bool {
    &&& has_axes(c, traces, Mode::Frontier)
    &&& c.series@.len() == traces.len()
    &&& forall|i: int|
        0 <= i < traces.len() ==> is_series(
            #[trigger] c.series@[i],
            traces[i],
            SeriesKind::FrontierSize,
            palette(i % 5),
        )
}

fn y_label(mode: Mode) -> (r: &'static str)
    ensures
        r@ == y_label_of(mode),
{
    match mode {
        Mode::Bounds => "Bound Value",
        Mode::Frontier => "Frontier Size",
    }
}

/// The chart of the lower and upper bounds of `traces`.
pub fn bounds_view(traces: &[Trace]) -> (r: Chart)
    ensures
        is_bounds_view(r, traces@),
{
    let mut series: Vec<Series> = Vec::new();
    let mut i: usize = 0;
    while i < traces.len()
        invariant
            i <= traces@.len(),
            series@.len() == 2 * i,
            forall|j: int|
                0 <= j < i ==> is_series(
                    #[trigger] series@[2 * j],
                    traces@[j],
                    SeriesKind::LowerBound,
                    palette(j % 5),
                ) && is_series(
                    series@[2 * j + 1],
                    traces@[j],
                    SeriesKind::UpperBound,
                    palette(j % 5),
                ),
        decreases traces@.len() - i,
    {
        let c = color(i);
        series.push(traces[i].lb_plot(c));
        series.push(traces[i].ub_plot(c));
        proof {
            assert forall|j: int| 0 <= j < i + 1 implies is_series(
                #[trigger] series@[2 * j],
                traces@[j],
                SeriesKind::LowerBound,
                palette(j % 5),
            ) && is_series(
                series@[2 * j + 1],
                traces@[j],
                SeriesKind::UpperBound,
                palette(j % 5),
            ) by {
                if j == i {
                    assert(series@[2 * j] == series@[2 * i]);
                }
            }
        }
        i = i + 1;
    }
    Chart {
        x_label: "Explored Nodes",
        y_label: y_label(Mode::Bounds),
        y_range: y_range(traces, Mode::Bounds),
        series,
    }
}

/// The chart of the frontier sizes of `traces`.
pub fn fringe_view(traces: &[Trace]) -> (r: Chart)
    ensures
        is_fringe_view(r, traces@),
{
    let mut series: Vec<Series> = Vec::new();
    let mut i: usize = 0;
    while i < traces.len()
        invariant
            i <= traces@.len(),
            series@.len() == i,
            forall|j: int|
                0 <= j < i ==> is_series(
                    #[trigger] series@[j],
                    traces@[j],
                    SeriesKind::FrontierSize,
                    palette(j % 5),
                ),
        decreases traces@.len() - i,
    {
        series.push(traces[i].fsz_plot(color(i)));
        i = i + 1;
    }
    Chart {
        x_label: "Explored Nodes",
        y_label: y_label(Mode::Frontier),
        y_range: y_range(traces, Mode::Frontier),
        series,
    }
}

/// The chart of `traces` in mode `mode`.
pub fn view(traces: &[Trace], mode: Mode) -> (r: Chart)
    ensures
        mode == Mode::Bounds ==> is_bounds_view(r, traces@),
        mode == Mode::Frontier ==> is_fringe_view(r, traces@),
{
    match mode {
        Mode::Bounds => bounds_view(traces),
        Mode::Frontier => fringe_view(traces),
    }
}

/// The colour of a trace depends on its position alone: the trace at position
/// `i` takes colour `i mod 5` of the palette whatever the traces hold, in both
/// kinds of chart, and the trace five places further takes the same colour.
pub proof fn lemma_colors_cycle(c: Chart, d: Chart, ts: Seq<Trace>, us: Seq<Trace>, i: int)
    requires
        is_bounds_view(c, ts),
        is_fringe_view(d, us),
        0 <= i < ts.len(),
        0 <= i < us.len(),
    ensures
        c.series@[2 * i].color@ == palette(i % 5),
        c.series@[2 * i + 1].color@ == palette(i % 5),
        d.series@[i].color@ == palette(i % 5),
        i + 5 < ts.len() ==> c.series@[2 * (i + 5)].color@ == c.series@[2 * i].color@,
        i + 5 < us.len() ==> d.series@[i + 5].color@ == d.series@[i].color@,
{
    assert((i + 5) % 5 == i % 5);
    if i + 5 < ts.len() {
        assert(is_series(c.series@[2 * (i + 5)], ts[i + 5], SeriesKind::LowerBound, palette((i + 5) % 5)));
    }
    if i + 5 < us.len() {
        assert(is_series(d.series@[i + 5], us[i + 5], SeriesKind::FrontierSize, palette((i + 5) % 5)));
    }
}

} // verus!
