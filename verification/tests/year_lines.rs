use pdxindoorsoccer_ical::parse::parse_year_line;

#[test]
fn parse_year_line_fall() {
    assert_eq!(
        Some(2018),
        parse_year_line("                          SECOND FALL CUP 2018                             ")
    )
}

#[test]
fn parse_year_line_winter() {
    assert_eq!(Some(2020), parse_year_line("\t\t           WINTER CUP 2020"))
}

#[test]
fn year_line_needs_trailing_whitespace_only() {
    assert_eq!(None, parse_year_line("WINTER CUP 2020 (merged division)"));
}

#[test]
fn year_line_needs_four_digits() {
    assert_eq!(None, parse_year_line("WINTER CUP 202"));
    assert_eq!(None, parse_year_line("WINTER CUP 20205"));
}

#[test]
fn year_line_token_may_stand_anywhere() {
    assert_eq!(Some(2020), parse_year_line("A CUP 12 CUP 2020"));
}

#[test]
fn year_line_zero_year() {
    assert_eq!(Some(0), parse_year_line("NULL CUP 0000"));
}
