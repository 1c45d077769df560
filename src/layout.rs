//! Chart dimensions: the `width,height` syntax and the choice of the size of a
//! chart drawn in a terminal.
use vstd::prelude::*;
use vstd::string::StringSliceAdditionalSpecFns;
use crate::scan::{
    white_space_end, white_space_run, decimal, digits_end, has_uint, lemma_digit_run_bound, read_decimal,
    uint_end,
};

verus! {

/// A width and a height.
#[derive(Clone, Copy, Debug, PartialEq, Eq, Structural)]
pub struct Dimension(pub u32, pub u32);

/// What a terminal chart gives up on each side of the terminal for its
/// borders and labels.
pub const TERM_MARGIN: u32 = 10;

/// The size of a terminal chart when neither the caller nor the terminal gives one.
pub const FALLBACK_WIDTH: u32 = 45;

pub const FALLBACK_HEIGHT: u32 = 15;

/// The `width,height` text that starts at byte `p` of `t`, white space
/// allowed after the comma.
pub open spec fn dimension_at(t: Seq<u8>, p: int) -> Option<(int, int)> {
    let a = uint_end(t, p);
    let c = a + 1 + white_space_run(t, a + 1);
    if has_uint(t, p) && a < t.len() && t[a] == 44 && has_uint(t, c) {
        Some((decimal(t, p, a), decimal(t, c, uint_end(t, c))))
    } else {
        None
    }
}

/// The `width,height` text that starts first at or after `p`.
pub open spec fn leftmost_dimension(t: Seq<u8>, p: int) -> Option<(int, int)>
    decreases t.len() - p,
{
    if p >= t.len() {
        None
    } else {
        match dimension_at(t, p) {
            Some(d) => Some(d),
            None => leftmost_dimension(t, p + 1),
        }
    }
}

/// The text that describes the accepted syntax.
pub open spec fn dimension_error() -> Seq<char> {
    "Input does not conform to format 'width,height'"@
}

fn dimension_at_exec(t: &[u8], p: usize) -> (r: Option<Result<Dimension, ()>>)
    requires
        p <= t@.len(),
    ensures
        match dimension_at(t@, p as int) {
            None => r is None,
            Some((w, h)) => if w <= u32::MAX && h <= u32::MAX {
                r == Some(Ok::<Dimension, ()>(Dimension(w as u32, h as u32)))
            } else {
                r == Some(Err::<Dimension, ()>(()))
            },
        },
{
    let n: usize = t.len();
    let a = digits_end(t, p);
    if a == p || a >= n || t[a] != 44 {
        return None;
    }
    let c = white_space_end(t, a + 1);
    let d = digits_end(t, c);
    if d == c {
        return None;
    }
    proof {
        lemma_digit_run_bound(t@, p as int);
        lemma_digit_run_bound(t@, c as int);
    }
    match (read_decimal(t, p, a, 4294967295), read_decimal(t, c, d, 4294967295)) {
        (Some(w), Some(h)) => Some(Ok(Dimension(w as u32, h as u32))),
        _ => Some(Err(())),
    }
}

impl Dimension {
    pub fn x(self) -> (r: u32)
        ensures
            r == self.0,
    {
        self.0
    }

    pub fn y(self) -> (r: u32)
        ensures
            r == self.1,
    {
        self.1
    }

    /// Reads `width,height` from the leftmost place in `txt` where it stands.
    /// Text where it stands nowhere, or whose numbers overflow, is refused.
    pub fn from_str(txt: &str) -> (r: Result<Dimension, &'static str>)
        ensures
            match leftmost_dimension(txt.spec_bytes(), 0) {
                Some((w, h)) => if w <= u32::MAX && h <= u32::MAX {
                    r == Ok::<Dimension, &'static str>(Dimension(w as u32, h as u32))
                } else {
                    r is Err && r->Err_0@ == dimension_error()
                },
                None => r is Err && r->Err_0@ == dimension_error(),
            },
    {
        let t = txt.as_bytes();
        let n: usize = t.len();
        let mut p: usize = 0;
        while p < n
            invariant
                t@ == txt.spec_bytes(),
                n == t@.len(),
                p <= n,
                leftmost_dimension(t@, 0) == leftmost_dimension(t@, p as int),
            decreases n - p,
        {
            let found = dimension_at_exec(t, p);
            match found {
                Some(Ok(d)) => {
                    return Ok(d);
                },
                Some(Err(())) => {
                    return Err("Input does not conform to format 'width,height'");
                },
                None => {},
            }
            p = p + 1;
        }
        Err("Input does not conform to format 'width,height'")
    }
}

/// The size of a chart drawn in a terminal: the one the caller gives, else
/// the size of the terminal less a margin on each side, else a fixed size.
pub fn resolve(explicit: Option<Dimension>, probe: Option<Dimension>) -> (r: Dimension)
    requires
        explicit is None ==> (probe matches Some(p) ==> p.0 >= TERM_MARGIN && p.1 >= TERM_MARGIN),
    ensures
        r == match (explicit, probe) {
            (Some(d), _) => d,
            (None, Some(p)) => Dimension(
                (p.0 - TERM_MARGIN) as u32,
                (p.1 - TERM_MARGIN) as u32,
            ),
            (None, None) => Dimension(FALLBACK_WIDTH, FALLBACK_HEIGHT),
        },
{
    match explicit {
        Some(d) => d,
        None => match probe {
            Some(p) => Dimension(p.0 - TERM_MARGIN, p.1 - TERM_MARGIN),
            None => Dimension(FALLBACK_WIDTH, FALLBACK_HEIGHT),
        },
    }
}

} // verus!
