use vstd::prelude::*;

verus! {

/// What a metric line says, over mathematical integers.
pub enum Metric {
    Ongoing { explored: int, lb: int, ub: int, fringe: int },
    Final { explored: int, opt: int },
}

impl Metric {
    pub open spec fn explored(self) -> int {
        match self {
            Metric::Ongoing { explored, .. } => explored,
            Metric::Final { explored, .. } => explored,
        }
    }

    pub open spec fn lb(self) -> int {
        match self {
            Metric::Ongoing { lb, .. } => lb,
            Metric::Final { opt, .. } => opt,
        }
    }

    pub open spec fn ub(self) -> int {
        match self {
            Metric::Ongoing { ub, .. } => ub,
            Metric::Final { opt, .. } => opt,
        }
    }

    /// A final line carries no frontier: it reads as an empty one.
    pub open spec fn fringe(self) -> int {
        match self {
            Metric::Ongoing { fringe, .. } => fringe,
            Metric::Final { .. } => 0,
        }
    }

    /// The values fit the widths of `LogLine`'s fields.
    pub open spec fn fits(self) -> bool {
        match self {
            Metric::Ongoing { explored, lb, ub, fringe } => {
                0 <= explored <= usize::MAX && i32::MIN <= lb <= i32::MAX && i32::MIN <= ub
                    <= i32::MAX && 0 <= fringe <= usize::MAX
            },
            Metric::Final { explored, opt } => {
                0 <= explored <= usize::MAX && i32::MIN <= opt <= i32::MAX
            },
        }
    }
}

/// One metric line of a solver log: either a progress report or the final
/// result of the search.
#[derive(Debug, Clone, Copy)]
pub enum LogLine {
    Ongoing { explored: usize, lb: i32, ub: i32, fringe: usize },
    Final { explored: usize, opt_value: i32 },
}

impl View for LogLine {
    type V = Metric;

    open spec fn view(&self) -> Metric {
        match *self {
            LogLine::Ongoing { explored, lb, ub, fringe } => Metric::Ongoing {
                explored: explored as int,
                lb: lb as int,
                ub: ub as int,
                fringe: fringe as int,
            },
            LogLine::Final { explored, opt_value } => Metric::Final {
                explored: explored as int,
                opt: opt_value as int,
            },
        }
    }
}

impl LogLine {
    /// The number of nodes explored when the line was written.
    pub fn explored(&self) -> (r: usize)
        ensures
            r as int == self@.explored(),
    {
        match self {
            LogLine::Ongoing { explored, .. } => *explored,
            LogLine::Final { explored, .. } => *explored,
        }
    }

    /// The lower bound; the optimal value on a final line.
    pub fn lb(&self) -> (r: i32)
        ensures
            r as int == self@.lb(),
    {
        match self {
            LogLine::Ongoing { lb, .. } => *lb,
            LogLine::Final { opt_value, .. } => *opt_value,
        }
    }

    /// The upper bound; the optimal value on a final line.
    pub fn ub(&self) -> (r: i32)
        ensures
            r as int == self@.ub(),
    {
        match self {
            LogLine::Ongoing { ub, .. } => *ub,
            LogLine::Final { opt_value, .. } => *opt_value,
        }
    }

    /// The size of the frontier; zero on a final line.
    pub fn fringe(&self) -> (r: usize)
        ensures
            r as int == self@.fringe(),
    {
        match self {
            LogLine::Ongoing { fringe, .. } => *fringe,
            LogLine::Final { .. } => 0,
        }
    }
}

} // verus!
