use pdxindoorsoccer_ical::datetime::CivilDateTime;
use pdxindoorsoccer_ical::parse::{parse_game_line, ScheduleError};

#[test]
fn game_line_fields() {
    let g = parse_game_line("SUN JAN 20  7:50 PM  Real Portland vs Hyventus", 2019)
        .unwrap()
        .unwrap();
    assert_eq!("Real Portland", g.home);
    assert_eq!("Hyventus", g.away);
    assert_eq!(
        CivilDateTime { year: 2019, month: 1, day: 20, hour: 19, minute: 50, second: 0 },
        g.time
    );
}

#[test]
fn game_line_padding_is_irrelevant() {
    let narrow = parse_game_line("SUN JAN 20  7:50 PM  A vs B", 2019).unwrap().unwrap();
    let wide = parse_game_line("SUN JAN 20     7:50 PM  A vs B", 2019).unwrap().unwrap();
    assert_eq!(narrow.time, wide.time);
    assert_eq!(narrow.home, wide.home);
    assert_eq!(narrow.away, wide.away);
}

#[test]
fn game_line_two_digit_fields() {
    let g = parse_game_line("SAT DEC  1 10:15 AM  A vs B", 2018).unwrap().unwrap();
    assert_eq!(
        CivilDateTime { year: 2018, month: 12, day: 1, hour: 10, minute: 15, second: 0 },
        g.time
    );
}

#[test]
fn game_line_midnight_and_noon() {
    let g = parse_game_line("MON JUN 10 12:05 AM  A vs B", 2021).unwrap().unwrap();
    assert_eq!(0, g.time.hour);
    let g = parse_game_line("MON JUN 10 12:05 PM  A vs B", 2021).unwrap().unwrap();
    assert_eq!(12, g.time.hour);
}

#[test]
fn game_line_trims_team_names() {
    let g = parse_game_line("SUN JAN 20  7:50 PM   Real Portland  vs  Hyventus  ", 2019)
        .unwrap()
        .unwrap();
    assert_eq!("Real Portland", g.home);
    assert_eq!("Hyventus", g.away);
}

#[test]
fn game_line_vs_split_is_last() {
    let g = parse_game_line("SUN JAN 20  7:50 PM  A vs B vs C", 2019).unwrap().unwrap();
    assert_eq!("A vs B", g.home);
    assert_eq!("C", g.away);
}

#[test]
fn not_a_game_line() {
    assert!(parse_game_line("", 2019).unwrap().is_none());
    assert!(parse_game_line("DIVISION 3B SCHEDULE", 2019).unwrap().is_none());
    assert!(parse_game_line("SUN JAN 20  7:50 PM  no separator here", 2019)
        .unwrap()
        .is_none());
    assert!(parse_game_line("sun JAN 20  7:50 PM  A vs B", 2019).unwrap().is_none());
}

#[test]
fn game_line_needs_two_spaces_before_teams() {
    assert!(parse_game_line("SUN JAN 20  7:50 PM A vs B", 2019).unwrap().is_none());
}

#[test]
fn game_line_bad_date_is_an_error() {
    match parse_game_line("SAT FEB 30  7:50 PM  A vs B", 2019) {
        Err(ScheduleError::DateTimeParse { text }) => {
            assert_eq!("FEB 30  7:50 PM 2019", text);
        },
        _ => panic!("expected a date-time parse error"),
    }
}

#[test]
fn game_line_leap_day() {
    assert!(parse_game_line("SAT FEB 29 12:00 PM  A vs B", 2020).is_ok());
    assert!(parse_game_line("SAT FEB 29 12:00 PM  A vs B", 2019).is_err());
}

#[test]
fn game_line_bad_month_is_an_error() {
    assert!(parse_game_line("SAT XYZ 10  7:50 PM  A vs B", 2019).is_err());
}

#[test]
fn game_line_bad_clock_is_an_error() {
    assert!(parse_game_line("SAT JAN 10 00:50 PM  A vs B", 2019).is_err());
    assert!(parse_game_line("SAT JAN 10 13:50 PM  A vs B", 2019).is_err());
    assert!(parse_game_line("SAT JAN 10  7:75 PM  A vs B", 2019).is_err());
}
