use ddo_trace::record::LogLine;
use ddo_trace::trace::Trace;

const LOG: &str = "
Explored 5900, LB 11, UB 14, Fringe sz 890
Explored 6000, LB 11, UB 14, Fringe sz 790
Explored 6100, LB 11, UB 14, Fringe sz 690
Explored 6200, LB 11, UB 14, Fringe sz 590
Explored 6300, LB 11, UB 14, Fringe sz 490
Explored 6400, LB 11, UB 13, Fringe sz 390
Explored 6500, LB 11, UB 13, Fringe sz 290
Explored 6600, LB 11, UB 12, Fringe sz 190
Explored 6700, LB 11, UB 12, Fringe sz 90
Final 11, Explored 6790
Optimum 11 computed in 5.042205s with 1 threads
### Solution: ################################################
 4 13 27 31 45 56 78 88 102 124 133
";

#[test]
fn data_parse_final_line() {
    let parsed = LogLine::try_from("Final 11, Explored 6790").unwrap();

    assert_eq!(11, parsed.lb());
    assert_eq!(11, parsed.ub());
    assert_eq!(6790, parsed.explored());
}

#[test]
fn data_parse_ongoing_line() {
    let line = "Explored 6700, LB 11, UB 12, Fringe sz 90";
    let parsed = LogLine::try_from(line).unwrap();

    assert_eq!(11, parsed.lb());
    assert_eq!(12, parsed.ub());
    assert_eq!(6700, parsed.explored());
}

#[test]
fn data_parse_final_line_with_negatives() {
    let line = "Final -11, Explored 6790";
    let parsed = LogLine::try_from(line).unwrap();

    assert_eq!(-11, parsed.lb());
    assert_eq!(-11, parsed.ub());
    assert_eq!(6790, parsed.explored());
}

#[test]
fn data_parse_ongoing_line_with_negatives() {
    let line = "Explored 6700, LB -11, UB -12, Fringe sz 90";
    let parsed = LogLine::try_from(line).unwrap();

    assert_eq!(-11, parsed.lb());
    assert_eq!(-12, parsed.ub());
    assert_eq!(6700, parsed.explored());
}

#[test]
fn data_when_it_fails() {
    let line = "Coucou ca va ?";
    let parsed = LogLine::try_from(line);
    assert!(parsed.is_err());
}

#[test]
fn data_parse_empty_trace() {
    let log = "";
    let trace = Trace::from(log);

    assert_eq!(0, trace.lines.len())
}

#[test]
fn data_parse_trace() {
    let trace = Trace::from(LOG);

    assert_eq!(10, trace.lines.len());
}

#[test]
fn trace_parse_final_line() {
    let parsed = LogLine::try_from("Final 11, Explored 6790").unwrap();

    assert_eq!(11, parsed.lb());
    assert_eq!(11, parsed.ub());
    assert_eq!(6790, parsed.explored());
}

#[test]
fn trace_parse_ongoing_line() {
    let line = "Explored 6700, LB 11, UB 12, Fringe sz 90";
    let parsed = LogLine::try_from(line).unwrap();

    assert_eq!(11, parsed.lb());
    assert_eq!(12, parsed.ub());
    assert_eq!(6700, parsed.explored());
}

#[test]
fn trace_parse_final_line_with_negatives() {
    let line = "Final -11, Explored 6790";
    let parsed = LogLine::try_from(line).unwrap();

    assert_eq!(-11, parsed.lb());
    assert_eq!(-11, parsed.ub());
    assert_eq!(6790, parsed.explored());
}

#[test]
fn trace_parse_ongoing_line_with_negatives() {
    let line = "Explored 6700, LB -11, UB -12, Fringe sz 90";
    let parsed = LogLine::try_from(line).unwrap();

    assert_eq!(-11, parsed.lb());
    assert_eq!(-12, parsed.ub());
    assert_eq!(6700, parsed.explored());
}

#[test]
fn trace_when_it_fails() {
    let line = "Coucou ca va ?";
    let parsed = LogLine::try_from(line);
    assert!(parsed.is_err());
}

#[test]
fn trace_parse_empty_trace() {
    let log = "";
    let trace = Trace::from(log);

    assert_eq!(0, trace.lines.len())
}

#[test]
fn trace_parse_trace() {
    let trace = Trace::from(LOG);

    assert_eq!(10, trace.lines.len());
}

#[test]
fn ongoing_line_keeps_all_four_numbers() {
    let parsed = LogLine::try_from("Explored 6700, LB -11, UB -12, Fringe sz 90").unwrap();
    assert!(matches!(
        parsed,
        LogLine::Ongoing { explored: 6700, lb: -11, ub: -12, fringe: 90 }
    ));
    assert_eq!(90, parsed.fringe());
}

#[test]
fn final_line_reads_as_equal_bounds_and_empty_frontier() {
    let parsed = LogLine::try_from("Final 11, Explored 6790").unwrap();
    assert!(matches!(parsed, LogLine::Final { explored: 6790, opt_value: 11 }));
    assert_eq!(11, parsed.lb());
    assert_eq!(11, parsed.ub());
    assert_eq!(0, parsed.fringe());
    assert_eq!(6790, parsed.explored());
}

#[test]
fn metric_may_stand_after_other_text() {
    let parsed = LogLine::try_from("[info] Explored 12, LB 3, UB 4, Fringe sz 5 (so far)").unwrap();
    assert!(matches!(parsed, LogLine::Ongoing { explored: 12, lb: 3, ub: 4, fringe: 5 }));
}

#[test]
fn leftmost_metric_counts() {
    let line = "Explored 1, LB 2, UB 3, Fringe sz 4 Explored 5, LB 6, UB 7, Fringe sz 8";
    let parsed = LogLine::try_from(line).unwrap();
    assert!(matches!(parsed, LogLine::Ongoing { explored: 1, lb: 2, ub: 3, fringe: 4 }));
}

#[test]
fn progress_grammar_is_tried_first() {
    let parsed = LogLine::try_from("Final 3, Explored 9 Explored 1, LB 2, UB 3, Fringe sz 4").unwrap();
    assert!(matches!(parsed, LogLine::Ongoing { explored: 1, lb: 2, ub: 3, fringe: 4 }));
}

#[test]
fn incomplete_lines_are_refused() {
    assert!(LogLine::try_from("Explored 6700, LB 11, UB 12, Fringe sz ").is_err());
    assert!(LogLine::try_from("Explored 6700, LB -, UB 12, Fringe sz 4").is_err());
    assert!(LogLine::try_from("Final , Explored 6790").is_err());
    assert!(LogLine::try_from("").is_err());
}

#[test]
fn extreme_values_are_read() {
    let parsed = LogLine::try_from("Final -2147483648, Explored 0").unwrap();
    assert_eq!(i32::MIN, parsed.lb());
    let parsed = LogLine::try_from("Explored 0, LB 2147483647, UB -0, Fringe sz 0").unwrap();
    assert_eq!(i32::MAX, parsed.lb());
    assert_eq!(0, parsed.ub());
}

#[test]
fn trace_keeps_records_in_line_order() {
    let trace = Trace::from(LOG);
    let explored: Vec<usize> = trace.lines.iter().map(|l| l.explored()).collect();
    assert_eq!(
        vec![5900, 6000, 6100, 6200, 6300, 6400, 6500, 6600, 6700, 6790],
        explored
    );
    assert!(matches!(trace.lines[9], LogLine::Final { explored: 6790, opt_value: 11 }));
    assert!(trace.name.is_none());
}

#[test]
fn trace_reads_carriage_returns_and_last_line() {
    let trace = Trace::from("Final 1, Explored 2\r\nExplored 3, LB 4, UB 5, Fringe sz 6");
    assert_eq!(2, trace.lines.len());
    assert_eq!(6, trace.lines[1].fringe());
}

#[test]
fn build_keeps_the_name() {
    let trace = Trace::build(LOG, Some("run".to_string())).unwrap();
    assert_eq!(Some("run".to_string()), trace.name);
    assert_eq!(10, trace.lines.len());
}

#[test]
fn build_refuses_numbers_that_overflow() {
    let text = "Final 1, Explored 2\nFinal 99999999999, Explored 2\n";
    assert!(Trace::build(text, None).is_none());
    let text = "Explored 1, LB 2, UB 3, Fringe sz 999999999999999999999999999\n";
    assert!(Trace::build(text, None).is_none());
}
