use pdxindoorsoccer_ical::convert::{schedule_to_events, CalendarEvent};
use pdxindoorsoccer_ical::datetime::{add_seconds, CivilDateTime};
use pdxindoorsoccer_ical::parse::ScheduleError;

fn lines(text: &[&str]) -> Vec<String> {
    text.iter().map(|s| s.to_string()).collect()
}

fn utc(year: u16, month: u8, day: u8, hour: u8, minute: u8) -> CivilDateTime {
    CivilDateTime { year, month, day, hour, minute, second: 0 }
}

#[test]
fn convert_small_schedule() {
    let input = lines(&[
        "                          SECOND FALL CUP 2018",
        "",
        "SUN NOV 11  7:50 PM  Hyventus vs real portland fc",
        "per field per game",
        "SUN NOV 18  1:10 PM  wombats vs Gorillas",
        "SUN DEC  2  6:00 PM  cool fc vs HYVENTUS",
    ]);
    let events = schedule_to_events(&input, "HYVENTUS").unwrap();
    assert_eq!(2, events.len());

    // November 11 2018, 7:50 PM in Portland is 03:50 UTC the next day (PST).
    let ev: &CalendarEvent = &events[0];
    assert_eq!("Hyventus (home) vs. Real Portland FC", ev.summary);
    assert_eq!("Home team brings ball & all colors", ev.description);
    assert_eq!(
        "Portland Indoor Soccer\n418 SE Main St.\nPortland\\, OR 97214",
        ev.location
    );
    assert_eq!(utc(2018, 11, 12, 3, 50), ev.start);
    assert_eq!(utc(2018, 11, 12, 4, 36), ev.end);

    let ev = &events[1];
    assert_eq!("Cool FC (home) vs. Hyventus", ev.summary);
    assert_eq!(utc(2018, 12, 3, 2, 0), ev.start);
    assert_eq!(utc(2018, 12, 3, 2, 46), ev.end);
}

#[test]
fn matching_is_case_insensitive() {
    let input = lines(&[
        "WINTER CUP 2020",
        "SAT JAN 11  7:50 PM  real portland vs Hyventus",
        "SAT JAN 18  7:50 PM  Gorillas vs wombats",
    ]);
    let events = schedule_to_events(&input, "REAL PORTLAND").unwrap();
    assert_eq!(1, events.len());
    assert_eq!("Real Portland (home) vs. Hyventus", events[0].summary);
}

#[test]
fn year_rollover_applies_to_the_game_that_crosses() {
    let input = lines(&[
        "FALL CUP 2018",
        "SUN NOV 11  7:50 PM  Hyventus vs A",
        "SUN DEC  9  7:50 PM  A vs Hyventus",
        "SUN JAN  6  7:50 PM  Hyventus vs B",
        "SUN FEB  3  7:50 PM  B vs Hyventus",
    ]);
    let events = schedule_to_events(&input, "Hyventus").unwrap();
    assert_eq!(4, events.len());
    assert_eq!(2018, events[0].start.year);
    assert_eq!(2018, events[1].start.year);
    assert_eq!(2019, events[2].start.year);
    assert_eq!(2019, events[3].start.year);
}

#[test]
fn summer_games_use_daylight_time() {
    let input = lines(&["SUMMER CUP 2019", "SAT JUL 20  7:50 PM  A vs B"]);
    let events = schedule_to_events(&input, "a").unwrap();
    // 7:50 PM PDT (UTC-7) is 02:50 UTC the next day.
    assert_eq!(utc(2019, 7, 21, 2, 50), events[0].start);
}

#[test]
fn games_before_a_year_declaration_are_skipped() {
    let input = lines(&[
        "SUN NOV 11  7:50 PM  Hyventus vs A",
        "FALL CUP 2018",
        "SUN NOV 18  7:50 PM  Hyventus vs B",
    ]);
    let events = schedule_to_events(&input, "Hyventus").unwrap();
    assert_eq!(1, events.len());
    assert_eq!("Hyventus (home) vs. B", events[0].summary);
}

#[test]
fn a_zero_year_declaration_leaves_the_year_unset() {
    let input = lines(&[
        "NULL CUP 0000",
        "SUN NOV 11  7:50 PM  Hyventus vs A",
        "REAL CUP 2018",
        "SUN NOV 18  7:50 PM  Hyventus vs B",
    ]);
    let events = schedule_to_events(&input, "Hyventus").unwrap();
    assert_eq!(1, events.len());
    assert_eq!("Hyventus (home) vs. B", events[0].summary);
}

#[test]
fn other_lines_give_no_output_and_no_error() {
    let input = lines(&[
        "PORTLAND INDOOR SOCCER",
        "  DIVISION 3B",
        "",
        "\t",
        "some footer text",
    ]);
    let events = schedule_to_events(&input, "Hyventus").unwrap();
    assert_eq!(0, events.len());
}

#[test]
fn bad_game_line_aborts_the_run() {
    let input = lines(&[
        "FALL CUP 2018",
        "SUN NOV 11  7:50 PM  Hyventus vs A",
        "SUN NOV 31  7:50 PM  B vs C",
        "SUN DEC  2  7:50 PM  Hyventus vs D",
    ]);
    match schedule_to_events(&input, "Hyventus") {
        Err(ScheduleError::DateTimeParse { text }) => {
            assert_eq!("NOV 31  7:50 PM 2018", text);
        },
        _ => panic!("expected a date-time parse error"),
    }
}

#[test]
fn nonexistent_wall_clock_time_aborts_the_run() {
    // 2:30 AM on 10 March 2019 was skipped by the spring-forward transition.
    let input = lines(&["WINTER CUP 2019", "SUN MAR 10  2:30 AM  A vs B"]);
    match schedule_to_events(&input, "A") {
        Err(ScheduleError::DateTimeParse { text }) => {
            assert_eq!("MAR 10  2:30 AM 2019", text);
        },
        _ => panic!("expected a date-time parse error"),
    }
}

#[test]
fn add_seconds_stops_at_the_last_representable_day() {
    let edge = CivilDateTime { year: 65535, month: 12, day: 31, hour: 23, minute: 59, second: 59 };
    assert_eq!(None, add_seconds(&edge, 1));
    let back = add_seconds(&edge, -5).unwrap();
    assert_eq!(Some(edge), add_seconds(&back, 5));
}

#[test]
fn endless_rollovers_overflow_the_year() {
    // A season that alternates December and January games rolls the year
    // forward once per pair of lines; past the largest representable year
    // the run stops with an overflow error.
    let mut input = vec!["LONG CUP 9999".to_string()];
    for _ in 0..55_600 {
        input.push("SUN DEC 15  7:50 PM  A vs B".to_string());
        input.push("SUN JAN 15  7:50 PM  A vs B".to_string());
    }
    match schedule_to_events(&input, "never matched") {
        Err(ScheduleError::YearOverflow) => {},
        _ => panic!("expected a year overflow"),
    }
}

#[test]
fn error_messages() {
    let err = ScheduleError::DateTimeParse { text: "FEB 30  7:50 PM 2019".to_string() };
    assert_eq!("Failed to parse datetime string: FEB 30  7:50 PM 2019", err.message());
    assert_eq!("Year out of range", ScheduleError::YearOverflow.message());
}

#[test]
fn add_seconds_carries_through_month_and_year() {
    let end_of_year = CivilDateTime { year: 2018, month: 12, day: 31, hour: 23, minute: 30, second: 0 };
    assert_eq!(
        Some(CivilDateTime { year: 2019, month: 1, day: 1, hour: 0, minute: 16, second: 0 }),
        add_seconds(&end_of_year, 46 * 60)
    );
}
