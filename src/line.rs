//! The two grammars of metric lines, and the parser that recognises them.
//!
//! A progress line holds `Explored <uint>, LB <int>, UB <int>, Fringe sz <uint>`
//! and a final line `Final <int>, Explored <uint>`, where `<int>` may start with
//! a minus sign. Either may stand anywhere in the line: the leftmost occurrence
//! counts, every run of digits is read whole, and the progress grammar is tried
//! first.
use vstd::prelude::*;
use vstd::string::StringSliceAdditionalSpecFns;
use crate::record::{LogLine, Metric};
use crate::scan::{
    decimal, digits_end, has_int, has_lit, has_uint, int_end, lemma_digit_run_bound, lit_at,
    read_decimal, sign_len, signed_value, uint_end,
};

verus! {

pub open spec fn explored_tag() -> Seq<u8> {
    "Explored ".spec_bytes()
}

pub open spec fn lb_tag() -> Seq<u8> {
    ", LB ".spec_bytes()
}

pub open spec fn ub_tag() -> Seq<u8> {
    ", UB ".spec_bytes()
}

pub open spec fn fringe_tag() -> Seq<u8> {
    ", Fringe sz ".spec_bytes()
}

pub open spec fn final_tag() -> Seq<u8> {
    "Final ".spec_bytes()
}

pub open spec fn final_explored_tag() -> Seq<u8> {
    ", Explored ".spec_bytes()
}

/// The progress line that starts at byte `p` of `t`, if any.
pub open spec fn ongoing_at(t: Seq<u8>, p: int) -> Option<Metric> {
    let a = p + explored_tag().len();
    let b = uint_end(t, a);
    let c = b + lb_tag().len();
    let d = int_end(t, c);
    let e = d + ub_tag().len();
    let f = int_end(t, e);
    let g = f + fringe_tag().len();
    let h = uint_end(t, g);
    if lit_at(t, p, explored_tag()) && has_uint(t, a) && lit_at(t, b, lb_tag()) && has_int(t, c)
        && lit_at(t, d, ub_tag()) && has_int(t, e) && lit_at(t, f, fringe_tag()) && has_uint(t, g) {
        Some(
            Metric::Ongoing {
                explored: decimal(t, a, b),
                lb: signed_value(t, c, d),
                ub: signed_value(t, e, f),
                fringe: decimal(t, g, h),
            },
        )
    } else {
        None
    }
}

/// The final line that starts at byte `p` of `t`, if any.
pub open spec fn final_at(t: Seq<u8>, p: int) -> Option<Metric> {
    let a = p + final_tag().len();
    let b = int_end(t, a);
    let c = b + final_explored_tag().len();
    let d = uint_end(t, c);
    if lit_at(t, p, final_tag()) && has_int(t, a) && lit_at(t, b, final_explored_tag())
        && has_uint(t, c) {
        Some(Metric::Final { explored: decimal(t, c, d), opt: signed_value(t, a, b) })
    } else {
        None
    }
}

/// The two kinds of metric line.
#[derive(PartialEq, Eq, Structural, Clone, Copy)]
pub enum Form {
    Ongoing,
    Final,
}

pub open spec fn form_at(t: Seq<u8>, p: int, form: Form) -> Option<Metric> {
    match form {
        Form::Ongoing => ongoing_at(t, p),
        Form::Final => final_at(t, p),
    }
}

/// The line of the given form that starts first at or after `p`.
pub open spec fn leftmost(t: Seq<u8>, p: int, form: Form) -> Option<Metric>
    decreases t.len() - p,
{
    if p >= t.len() {
        None
    } else {
        match form_at(t, p, form) {
            Some(m) => Some(m),
            None => leftmost(t, p + 1, form),
        }
    }
}

/// What a line of a log says: the leftmost progress report, else the leftmost
/// final result, else nothing.
pub open spec fn parse_line(t: Seq<u8>) -> Option<Metric> {
    match leftmost(t, 0, Form::Ongoing) {
        Some(m) => Some(m),
        None => leftmost(t, 0, Form::Final),
    }
}

/// The numbers of the line, if it has any, fit the fields of `LogLine`.
pub open spec fn line_fits(t: Seq<u8>) -> bool {
    match parse_line(t) {
        Some(m) => m.fits(),
        None => true,
    }
}

/// The outcome of scanning bytes for a metric line.
pub enum Scan {
    NoMatch,
    Parsed(LogLine),
    /// A line was found whose numbers do not fit the fields of `LogLine`.
    OutOfRange,
}

pub open spec fn scan_agrees(s: Scan, m: Option<Metric>) -> bool {
    match m {
        None => s is NoMatch,
        Some(m) => if m.fits() {
            match s {
                Scan::Parsed(l) => l@ == m,
                _ => false,
            }
        } else {
            s is OutOfRange
        },
    }
}

/// The value of the number with an optional minus sign in `t[q..end]`, where
/// it fits an `i32`.
fn read_signed(t: &[u8], q: usize, end: usize) -> (r: Option<i32>)
    requires
        q <= t@.len(),
        has_int(t@, q as int),
        end == int_end(t@, q as int),
    ensures
        match r {
            Some(v) => v as int == signed_value(t@, q as int, end as int),
            None => !(i32::MIN <= signed_value(t@, q as int, end as int) <= i32::MAX),
        },
{
    let negative = q < t.len() && t[q] == 45;
    let from: usize = if negative { q + 1 } else { q };
    proof {
        lemma_digit_run_bound(t@, from as int);
    }
    if negative {
        match read_decimal(t, from, end, 2147483648) {
            Some(m) => if m == 2147483648 {
                Some(i32::MIN)
            } else {
                Some(-(m as i32))
            },
            None => None,
        }
    } else {
        match read_decimal(t, from, end, 2147483647) {
            Some(m) => Some(m as i32),
            None => None,
        }
    }
}

/// The value of the digits in `t[from..to]`, where it fits a `usize`.
fn read_unsigned(t: &[u8], from: usize, to: usize) -> (r: Option<usize>)
    requires
        from <= t@.len(),
        to == uint_end(t@, from as int),
    ensures
        match r {
            Some(v) => v as int == decimal(t@, from as int, to as int),
            None => decimal(t@, from as int, to as int) > usize::MAX,
        },
{
    proof {
        lemma_digit_run_bound(t@, from as int);
    }
    read_decimal(t, from, to, usize::MAX)
}

/// The end of the number with an optional minus sign that starts at `q`.
fn signed_end(t: &[u8], q: usize) -> (r: (usize, usize))
    requires
        q <= t@.len(),
    ensures
        r.0 == q + sign_len(t@, q as int),
        r.1 == int_end(t@, q as int),
        r.1 <= t@.len(),
{
    let from: usize = if q < t.len() && t[q] == 45 { q + 1 } else { q };
    (from, digits_end(t, from))
}

fn scan_ongoing_at(t: &[u8], p: usize) -> (r: Scan)
    requires
        p <= t@.len(),
    ensures
        scan_agrees(r, ongoing_at(t@, p as int)),
{
    let tag = "Explored ".as_bytes();
    if !has_lit(t, p, tag) {
        return Scan::NoMatch;
    }
    let a = p + tag.len();
    let b = digits_end(t, a);
    if b == a {
        return Scan::NoMatch;
    }
    let tag = ", LB ".as_bytes();
    if !has_lit(t, b, tag) {
        return Scan::NoMatch;
    }
    let c = b + tag.len();
    let (c1, d) = signed_end(t, c);
    if d == c1 {
        return Scan::NoMatch;
    }
    let tag = ", UB ".as_bytes();
    if !has_lit(t, d, tag) {
        return Scan::NoMatch;
    }
    let e = d + tag.len();
    let (e1, f) = signed_end(t, e);
    if f == e1 {
        return Scan::NoMatch;
    }
    let tag = ", Fringe sz ".as_bytes();
    if !has_lit(t, f, tag) {
        return Scan::NoMatch;
    }
    let g = f + tag.len();
    let h = digits_end(t, g);
    if h == g {
        return Scan::NoMatch;
    }
    match (read_unsigned(t, a, b), read_signed(t, c, d), read_signed(t, e, f), read_unsigned(t, g, h)) {
        (Some(explored), Some(lb), Some(ub), Some(fringe)) => {
            Scan::Parsed(LogLine::Ongoing { explored, lb, ub, fringe })
        },
        _ => Scan::OutOfRange,
    }
}

fn scan_final_at(t: &[u8], p: usize) -> (r: Scan)
    requires
        p <= t@.len(),
    ensures
        scan_agrees(r, final_at(t@, p as int)),
{
    let tag = "Final ".as_bytes();
    if !has_lit(t, p, tag) {
        return Scan::NoMatch;
    }
    let a = p + tag.len();
    let (a1, b) = signed_end(t, a);
    if b == a1 {
        return Scan::NoMatch;
    }
    let tag = ", Explored ".as_bytes();
    if !has_lit(t, b, tag) {
        return Scan::NoMatch;
    }
    let c = b + tag.len();
    let d = digits_end(t, c);
    if d == c {
        return Scan::NoMatch;
    }
    match (read_unsigned(t, c, d), read_signed(t, a, b)) {
        (Some(explored), Some(opt_value)) => Scan::Parsed(LogLine::Final { explored, opt_value }),
        _ => Scan::OutOfRange,
    }
}

/// Looks for the leftmost line of the given form.
fn scan_leftmost(t: &[u8], form: Form) -> (r: Scan)
    ensures
        scan_agrees(r, leftmost(t@, 0, form)),
{
    let n: usize = t.len();
    let mut p: usize = 0;
    while p < n
        invariant
            n == t@.len(),
            p <= n,
            leftmost(t@, 0, form) == leftmost(t@, p as int, form),
        decreases n - p,
    {
        let s = match form {
            Form::Ongoing => scan_ongoing_at(t, p),
            Form::Final => scan_final_at(t, p),
        };
        match s {
            Scan::NoMatch => {},
            _ => {
                return s;
            },
        }
        p = p + 1;
    }
    Scan::NoMatch
}

/// Scans one line of a log for a metric record.
pub fn scan_line(t: &[u8]) -> (r: Scan)
    ensures
        scan_agrees(r, parse_line(t@)),
{
    match scan_leftmost(t, Form::Ongoing) {
        Scan::NoMatch => scan_leftmost(t, Form::Final),
        s => s,
    }
}

impl LogLine {
    /// Parses one line of a log. Lines that hold no metric are refused; a
    /// line must not hold a metric whose numbers overflow the fields.
    pub fn try_from(value: &str) -> (r: Result<LogLine, ()>)
        requires
            line_fits(value.spec_bytes()),
        ensures
            match r {
                Ok(l) => parse_line(value.spec_bytes()) == Some(l@),
                Err(_) => parse_line(value.spec_bytes()) is None,
            },
    {
        match scan_line(value.as_bytes()) {
            Scan::Parsed(l) => Ok(l),
            _ => Err(()),
        }
    }
}

} // verus!
