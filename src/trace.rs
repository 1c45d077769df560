//! A trace: the metric records of one solver log, in the order of its lines.
use vstd::prelude::*;
use vstd::slice::slice_subrange;
use vstd::string::StringSliceAdditionalSpecFns;
use crate::line::{line_fits, parse_line, scan_line, Scan};
use crate::record::{LogLine, Metric};

verus! {

/// The lines of `t`, split at each line feed. The text after the last line
/// feed is a line too, empty when `t` ends with one.
pub open spec fn lines_of(t: Seq<u8>) -> Seq<Seq<u8>>
    decreases t.len(),
{
    if t.len() == 0 {
        seq![Seq::empty()]
    } else {
        let ls = lines_of(t.drop_last());
        if t.last() == 10 {
            ls.push(Seq::empty())
        } else {
            ls.update(ls.len() - 1, ls.last().push(t.last()))
        }
    }
}

/// The records of the lines that parse, in their order.
pub open spec fn records_of_lines(ls: Seq<Seq<u8>>) -> Seq<Metric>
    decreases ls.len(),
{
    if ls.len() == 0 {
        seq![]
    } else {
        let rest = records_of_lines(ls.drop_last());
        match parse_line(ls.last()) {
            Some(m) => rest.push(m),
            None => rest,
        }
    }
}

/// The records that a log text holds.
pub open spec fn records_of(t: Seq<u8>) -> Seq<Metric> {
    records_of_lines(lines_of(t))
}

/// No line of `ls` holds a metric whose numbers overflow `LogLine`'s fields.
pub open spec fn all_fit(ls: Seq<Seq<u8>>) -> bool {
    forall|k: int| 0 <= k < ls.len() ==> line_fits(#[trigger] ls[k])
}

/// No line of `t` holds a metric whose numbers overflow `LogLine`'s fields.
pub open spec fn text_fits(t: Seq<u8>) -> bool {
    all_fit(lines_of(t))
}

proof fn lemma_all_fit_split(ls: Seq<Seq<u8>>)
    requires
        ls.len() >= 1,
    ensures
        all_fit(ls) == (all_fit(ls.drop_last()) && line_fits(ls.last())),
{
    if all_fit(ls.drop_last()) && line_fits(ls.last()) {
        assert forall|k: int| 0 <= k < ls.len() implies line_fits(#[trigger] ls[k]) by {
            if k < ls.len() - 1 {
                assert(ls[k] == ls.drop_last()[k]);
            }
        }
    }
    if all_fit(ls) {
        assert forall|k: int| 0 <= k < ls.len() - 1 implies line_fits(
            #[trigger] ls.drop_last()[k],
        ) by {
            assert(ls[k] == ls.drop_last()[k]);
        }
    }
}

/// The metric records read from one solver log, optionally named after it.
#[derive(Clone, Debug)]
pub struct Trace {
    pub name: Option<String>,
    pub lines: Vec<LogLine>,
}

impl Trace {
    pub open spec fn records(&self) -> Seq<Metric> {
        self.lines@.map_values(|l: LogLine| l@)
    }
}

/// Reads every metric record of a log text, or `None` where a line holds a
/// metric whose numbers overflow.
fn scan_text(t: &[u8]) -> (r: Option<Vec<LogLine>>)
    ensures
        match r {
            Some(v) => text_fits(t@) && v@.map_values(|l: LogLine| l@) == records_of(t@),
            None => !text_fits(t@),
        },
{
    let n: usize = t.len();
    let mut out: Vec<LogLine> = Vec::new();
    let mut ok = true;
    let mut start: usize = 0;
    let mut i: usize = 0;
    proof {
        assert(t@.subrange(0, 0) =~= Seq::<u8>::empty());
    }
    while i < n
        invariant
            n == t@.len(),
            start <= i <= n,
            lines_of(t@.subrange(0, i as int)).len() >= 1,
            lines_of(t@.subrange(0, i as int)).last() == t@.subrange(start as int, i as int),
            ok ==> out@.map_values(|l: LogLine| l@) == records_of_lines(
                lines_of(t@.subrange(0, i as int)).drop_last(),
            ),
            ok == all_fit(lines_of(t@.subrange(0, i as int)).drop_last()),
        decreases n - i,
    {
        let ghost old_lines = lines_of(t@.subrange(0, i as int));
        proof {
            assert(t@.subrange(0, i + 1).drop_last() =~= t@.subrange(0, i as int));
        }
        if t[i] == 10 {
            let line = slice_subrange(t, start, i);
            let ghost was_ok = ok;
            match scan_line(line) {
                Scan::NoMatch => {},
                Scan::Parsed(l) => {
                    out.push(l);
                },
                Scan::OutOfRange => {
                    ok = false;
                },
            }
            proof {
                let new_lines = lines_of(t@.subrange(0, i + 1));
                assert(new_lines == old_lines.push(Seq::empty()));
                assert(new_lines.drop_last() =~= old_lines);
                assert(line@ == old_lines.last());
                if ok {
                    assert(line_fits(old_lines.last()));
                    assert(out@.map_values(|l: LogLine| l@) =~= records_of_lines(old_lines));
                }
                assert(Seq::<u8>::empty() =~= t@.subrange(i + 1, i + 1));
                lemma_all_fit_split(old_lines);
                if !ok && was_ok {
                    assert(!line_fits(old_lines.last()));
                }
            }
            start = i + 1;
        } else {
            proof {
                let new_lines = lines_of(t@.subrange(0, i + 1));
                assert(new_lines.drop_last() =~= old_lines.drop_last());
                assert(new_lines.last() =~= t@.subrange(start as int, i + 1));
            }
        }
        i = i + 1;
    }
    proof {
        assert(t@.subrange(0, n as int) =~= t@);
    }
    let last = slice_subrange(t, start, n);
    let ghost lines = lines_of(t@);
    let ghost was_ok = ok;
    match scan_line(last) {
        Scan::NoMatch => {},
        Scan::Parsed(l) => {
            out.push(l);
        },
        Scan::OutOfRange => {
            ok = false;
        },
    }
    proof {
        assert(last@ == lines.last());
        lemma_all_fit_split(lines);
        if ok {
            assert(line_fits(lines.last()));
            assert(out@.map_values(|l: LogLine| l@) =~= records_of_lines(lines));
        } else if was_ok {
            assert(!line_fits(lines.last()));
        }
    }
    if ok {
        Some(out)
    } else {
        None
    }
}

impl Trace {
    /// Reads the metric records of a log text, line by line; lines that hold
    /// no metric are skipped. No line may hold a metric whose numbers overflow.
    pub fn from(text: &str) -> (r: Trace)
        requires
            text_fits(text.spec_bytes()),
        ensures
            r.name is None,
            r.records() == records_of(text.spec_bytes()),
    {
        match scan_text(text.as_bytes()) {
            Some(lines) => Trace { name: None, lines },
            None => Trace { name: None, lines: Vec::new() },
        }
    }

    /// Reads a named trace from a log text, or `None` where a line holds a
    /// metric whose numbers overflow.
    pub fn build(text: &str, name: Option<String>) -> (r: Option<Trace>)
        ensures
            match r {
                Some(tr) => text_fits(text.spec_bytes()) && tr.name == name && tr.records()
                    == records_of(text.spec_bytes()),
                None => !text_fits(text.spec_bytes()),
            },
    {
        match scan_text(text.as_bytes()) {
            Some(lines) => Some(Trace { name, lines }),
            None => None,
        }
    }
}

/// A line that holds no metric is refused, never a fault: it satisfies what
/// `LogLine::try_from` asks, which then returns `Err`.
pub proof fn lemma_unmatched_line_is_refused(t: Seq<u8>)
    requires
        parse_line(t) is None,
    ensures
        line_fits(t),
{
}

/// An empty text holds no record, and may always be read.
pub proof fn lemma_empty_text(t: Seq<u8>)
    requires
        t.len() == 0,
    ensures
        records_of(t) == Seq::<Metric>::empty(),
        text_fits(t),
{
    let ls = lines_of(t);
    assert(ls == seq![Seq::<u8>::empty()]);
    assert(ls.drop_last() =~= Seq::<Seq<u8>>::empty());
    assert(parse_line(ls.last()) is None);
    assert(records_of_lines(ls.drop_last()) == Seq::<Metric>::empty());
}

} // verus!
