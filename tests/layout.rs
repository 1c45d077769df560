use ddo_trace::layout::{resolve, Dimension};

#[test]
fn explicit_dimension_wins() {
    let d = resolve(Some(Dimension(80, 24)), Some(Dimension(200, 50)));
    assert_eq!(Dimension(80, 24), d);
    assert_eq!(80, d.x());
    assert_eq!(24, d.y());
}

#[test]
fn probe_loses_the_margin() {
    assert_eq!(Dimension(190, 40), resolve(None, Some(Dimension(200, 50))));
    assert_eq!(Dimension(0, 0), resolve(None, Some(Dimension(10, 10))));
}

#[test]
fn fallback_dimension() {
    assert_eq!(Dimension(45, 15), resolve(None, None));
}

#[test]
fn dimension_syntax() {
    assert_eq!(Ok(Dimension(80, 24)), Dimension::from_str("80,24"));
    assert_eq!(Ok(Dimension(80, 24)), Dimension::from_str("80,   24"));
    assert_eq!(Ok(Dimension(12, 7)), Dimension::from_str("w 12,\t7 h"));
    assert_eq!(Ok(Dimension(3, 4)), Dimension::from_str("1 2 a,3,4"));
}

#[test]
fn dimension_syntax_errors() {
    let msg = "Input does not conform to format 'width,height'";
    assert_eq!(Err(msg), Dimension::from_str("80x24"));
    assert_eq!(Err(msg), Dimension::from_str(""));
    assert_eq!(Err(msg), Dimension::from_str("80,"));
    assert_eq!(Err(msg), Dimension::from_str("99999999999,24"));
}

#[test]
fn dimension_syntax_takes_unicode_white_space() {
    assert_eq!(Ok(Dimension(80, 24)), Dimension::from_str("80,\u{3000}24"));
    assert_eq!(Ok(Dimension(1, 2)), Dimension::from_str("1,\u{a0}2"));
    assert_eq!(Ok(Dimension(1, 2)), Dimension::from_str("1, \u{2028}\t\u{85}\u{1680}\u{2000}\u{200a}\u{2029}\u{202f}\u{205f}2"));
    assert_eq!(Ok(Dimension(5, 6)), Dimension::from_str("5,\n\r\u{b}\u{c}6"));
}

#[test]
fn dimension_syntax_refuses_other_characters() {
    let msg = "Input does not conform to format 'width,height'";
    assert_eq!(Err(msg), Dimension::from_str("1,\u{200b}2"));
    assert_eq!(Err(msg), Dimension::from_str("1,\u{2009}x2"));
    assert_eq!(Err(msg), Dimension::from_str("1 ,2"));
}

#[test]
fn explicit_dimension_wins_over_any_probe() {
    assert_eq!(Dimension(7, 8), resolve(Some(Dimension(7, 8)), Some(Dimension(3, 2))));
}
