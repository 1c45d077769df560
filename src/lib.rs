//! Reading the progress log of a branch-and-bound solver and describing the
//! charts that show how its bounds and its frontier evolve.
//!
//! - `record`: a metric line and its accessors;
//! - `scan`, `line`: the byte-level grammars of metric lines and their parser;
//! - `canonical`: well-formed lines parse back to the numbers they hold;
//! - `trace`: the records of a whole log;
//! - `chart`: point series, legends, colours and the vertical range of a chart;
//! - `layout`: chart dimensions and their `width,height` syntax.

pub mod record;
pub mod scan;
pub mod line;
pub mod trace;
pub mod layout;
pub mod chart;
pub mod canonical;
