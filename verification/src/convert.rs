//! The schedule converter: one pass over the lines of a schedule report,
//! producing the calendar events of the games of one team.
//!
//! The pass waits for a year-declaration line, then parses game lines under
//! the declared year, moving to the next year whenever a game's month is
//! smaller than the month of the game before it. The move is decided from
//! the month field alone, before the game's clock is resolved, so the first
//! game past a year boundary already carries the new year. A game is kept
//! when either team name matches the filter, case-insensitively; its event
//! has a fixed summary form, description, venue and duration, and carries
//! the game's instant in UTC.

use vstd::prelude::*;
use vstd::string::StringExecFns;

use crate::casing::{case_fold, caseless_match, fix_case, fix_case_spec};
use crate::datetime::{add_seconds, lemma_timestamp_in_range, timestamp_in_range, CivilDateTime};
use crate::parse::{
    game_month, is_game_line, is_year_line, line_year, parse_game_line, parse_year_line,
    peek_game_month, spec_parse_game, GameParse, GameRecord, GameRecordModel, ScheduleError,
    ScheduleErrorModel,
};

verus! {

/// A game runs 44 minutes, plus a 2-minute buffer.
pub const EVENT_SECONDS: i64 = (44 + 2) * 60;

/// The UTC offset, in seconds, that the US Pacific time zone gives the
/// wall-clock time `y-mo-d h:mi`, or `None` when the zone gives it no
/// single offset (no real calendar date, or a time skipped or repeated at a
/// daylight-saving transition).
pub uninterp spec fn pacific_offset_of(y: int, mo: int, d: int, h: int, mi: int) -> Option<int>;

/// Relies on chrono's `TimeZone::offset_from_local_datetime` for
/// `chrono_tz::US::Pacific`: a zone's offset for a wall-clock time is fixed
/// zone data, and every `chrono::FixedOffset` lies strictly within one day
/// of UTC.
#[verifier::external_body]
fn pacific_offset(y: u16, mo: u8, d: u8, h: u8, mi: u8) -> (r: Option<i32>)
    ensures
        match r {
            Some(off) => pacific_offset_of(y as int, mo as int, d as int, h as int, mi as int)
                == Some(off as int) && -86400 < off < 86400,
            None => pacific_offset_of(y as int, mo as int, d as int, h as int, mi as int)
                is None,
        },
{
    let date = match chrono::NaiveDate::from_ymd_opt(y as i32, mo as u32, d as u32) {
        Some(x) => x,
        None => return None,
    };
    let time = match chrono::NaiveTime::from_hms_opt(h as u32, mi as u32, 0) {
        Some(x) => x,
        None => return None,
    };
    let local = chrono::NaiveDateTime::new(date, time);
    match chrono::TimeZone::offset_from_local_datetime(&chrono_tz::US::Pacific, &local) {
        chrono::LocalResult::Single(off) => Some(chrono::Offset::fix(&off).local_minus_utc()),
        chrono::LocalResult::Ambiguous(_, _) => None,
        chrono::LocalResult::None => None,
    }
}

/// A calendar event: what the downstream calendar serialiser needs, with
/// start and end instants in UTC.
pub struct CalendarEvent {
    pub summary: String,
    pub description: String,
    pub location: String,
    pub start: CivilDateTime,
    pub end: CivilDateTime,
}

/// The model of an event: its texts, and its instants as timestamps
/// (seconds since the start of year 0, UTC).
pub ghost struct CalendarEventModel {
    pub summary: Seq<char>,
    pub description: Seq<char>,
    pub location: Seq<char>,
    pub start_ts: int,
    pub end_ts: int,
}

impl View for CalendarEvent {
    type V = CalendarEventModel;

    open spec fn view(&self) -> CalendarEventModel {
        CalendarEventModel {
            summary: self.summary@,
            description: self.description@,
            location: self.location@,
            start_ts: self.start.total_seconds(),
            end_ts: self.end.total_seconds(),
        }
    }
}

impl DeepView for CalendarEvent {
    type V = CalendarEventModel;

    open spec fn deep_view(&self) -> CalendarEventModel {
        self.view()
    }
}

/// The event of one matched game: `<home> (home) vs. <away>` with the
/// display-fixed names, the fixed description and venue, and a start and
/// end 46 minutes apart.
pub open spec fn spec_event(home: Seq<char>, away: Seq<char>, start_ts: int) -> CalendarEventModel {
    CalendarEventModel {
        summary: fix_case_spec(home) + " (home) vs. "@ + fix_case_spec(away),
        description: "Home team brings ball & all colors"@,
        location: "Portland Indoor Soccer\n418 SE Main St.\nPortland\\, OR 97214"@,
        start_ts,
        end_ts: start_ts + EVENT_SECONDS,
    }
}

/// The year under which a game is parsed: the current year, moved forward
/// by one when the game's month has fallen below the previous game's month
/// (the season crossed a year boundary). `last_month` is 0 before the first
/// game.
pub open spec fn resolve_year(year: int, last_month: int, month: int) -> int {
    if last_month != 0 && month < last_month {
        year + 1
    } else {
        year
    }
}

/// The resolved year never falls, and rises by at most one per game.
pub proof fn lemma_resolve_year_step(year: int, last_month: int, month: int)
    ensures
        year <= resolve_year(year, last_month, month) <= year + 1,
{
}

/// Over a season with game months 11, 12, 1, 2 under a declared year `y`,
/// the first two games resolve to `y` and the last two to `y + 1`.
pub proof fn lemma_rollover_sequence(y: int)
    ensures
        resolve_year(y, 0, 11) == y,
        resolve_year(y, 11, 12) == y,
        resolve_year(y, 12, 1) == y + 1,
        resolve_year(y + 1, 1, 2) == y + 1,
{
}

/// What converting the lines from position `i` on yields, in the state
/// `(year, last_month)`; `year == 0` means no year declaration has been
/// seen yet.
pub open spec fn spec_convert_from(
    lines: Seq<Seq<char>>,
    i: int,
    team: Seq<char>,
    year: int,
    last_month: int,
) -> Result<Seq<CalendarEventModel>, ScheduleErrorModel>
    decreases lines.len() - i,
    when 0 <= i <= lines.len()
{
    if i >= lines.len() {
        Ok(Seq::empty())
    } else {
        let line = lines[i];
        if year == 0 {
            if is_year_line(line) {
                spec_convert_from(lines, i + 1, team, line_year(line), last_month)
            } else {
                spec_convert_from(lines, i + 1, team, 0, last_month)
            }
        } else if !is_game_line(line) {
            spec_convert_from(lines, i + 1, team, year, last_month)
        } else {
            let ey = if game_month(line) is Some {
                resolve_year(year, last_month, game_month(line)->Some_0)
            } else {
                year
            };
            if ey > 65535 {
                Err(ScheduleErrorModel::YearOverflow)
            } else {
                match spec_parse_game(line, ey) {
                    GameParse::NotGame => Ok(Seq::empty()),
                    GameParse::BadTime(txt) => Err(ScheduleErrorModel::DateTimeParse(txt)),
                    GameParse::Game(g) => match pacific_offset_of(
                        g.time.year as int,
                        g.time.month as int,
                        g.time.day as int,
                        g.time.hour as int,
                        g.time.minute as int,
                    ) {
                        None => Err(ScheduleErrorModel::DateTimeParse(g.time_text)),
                        Some(off) => {
                            let start_ts = g.time.total_seconds() - off;
                            if !timestamp_in_range(start_ts) || !timestamp_in_range(
                                start_ts + EVENT_SECONDS,
                            ) {
                                Err(ScheduleErrorModel::YearOverflow)
                            } else {
                                match spec_convert_from(
                                    lines,
                                    i + 1,
                                    team,
                                    ey,
                                    game_month(line)->Some_0,
                                ) {
                                    Err(e) => Err(e),
                                    Ok(rest) => Ok(
                                        if case_fold(g.home) == case_fold(team) || case_fold(
                                            g.away,
                                        ) == case_fold(team) {
                                            seq![spec_event(g.home, g.away, start_ts)] + rest
                                        } else {
                                            rest
                                        },
                                    ),
                                }
                            }
                        },
                    },
                }
            }
        }
    }
}

/// What converting a whole schedule yields.
pub open spec fn spec_convert(lines: Seq<Seq<char>>, team: Seq<char>) -> Result<
    Seq<CalendarEventModel>,
    ScheduleErrorModel,
> {
    spec_convert_from(lines, 0, team, 0, 0)
}

/// A line that is neither a year declaration nor a game line adds no event,
/// raises no error, and changes no state: the conversion continues as if
/// the line were not there.
pub proof fn lemma_other_lines_skipped(
    lines: Seq<Seq<char>>,
    i: int,
    team: Seq<char>,
    year: int,
    last_month: int,
)
    requires
        0 <= i < lines.len(),
        !is_year_line(lines[i]),
        !is_game_line(lines[i]),
    ensures
        spec_convert_from(lines, i, team, year, last_month) == spec_convert_from(
            lines,
            i + 1,
            team,
            year,
            last_month,
        ),
{
}

/// Builds the calendar event of one matched game.
fn build_event(g: &GameRecord, start: CivilDateTime, end: CivilDateTime) -> (ev: CalendarEvent)
    requires
        end.total_seconds() == start.total_seconds() + EVENT_SECONDS,
    ensures
        ev@ == spec_event(g.home@, g.away@, start.total_seconds()),
        ev.start == start,
        ev.end == end,
{
    let mut summary = fix_case(g.home.as_str());
    summary.append(" (home) vs. ");
    let fixed_away = fix_case(g.away.as_str());
    summary.append(fixed_away.as_str());
    let ev = CalendarEvent {
        summary,
        description: String::from_str("Home team brings ball & all colors"),
        location: String::from_str("Portland Indoor Soccer\n418 SE Main St.\nPortland\\, OR 97214"),
        start,
        end,
    };
    proof {
        assert(ev@.summary =~= fix_case_spec(g.home@) + " (home) vs. "@ + fix_case_spec(g.away@));
    }
    ev
}

/// Converts the lines of a schedule report into the calendar events of the
/// games in which `team_name` plays, in the order the games stand in the
/// report.
pub fn schedule_to_events(lines: &Vec<String>, team_name: &str) -> (r: Result<
    Vec<CalendarEvent>,
    ScheduleError,
>)
    ensures
        match r {
            Ok(events) => spec_convert(lines.deep_view(), team_name@) == Ok::<
                _,
                ScheduleErrorModel,
            >(events.deep_view()) && forall|k: int|
                0 <= k < events.len() ==> (#[trigger] events[k].start).wf() && events[k].end.wf(),
            Err(e) => spec_convert(lines.deep_view(), team_name@) == Err::<
                Seq<CalendarEventModel>,
                _,
            >(e@),
        },
{
    let ghost ls = lines.deep_view();
    let ghost team = team_name@;
    let mut events: Vec<CalendarEvent> = Vec::new();
    let mut year: u16 = 0;
    let mut last_month: u8 = 0;
    let mut idx: usize = 0;
    while idx < lines.len()
        invariant
            idx <= lines.len(),
            ls == lines.deep_view(),
            team == team_name@,
            last_month <= 12,
            forall|k: int|
                0 <= k < events.len() ==> (#[trigger] events[k].start).wf() && events[k].end.wf(),
            match spec_convert_from(ls, idx as int, team, year as int, last_month as int) {
                Ok(evs) => spec_convert(ls, team) == Ok::<_, ScheduleErrorModel>(
                    events.deep_view() + evs,
                ),
                Err(e) => spec_convert(ls, team) == Err::<Seq<CalendarEventModel>, _>(e),
            },
        decreases lines.len() - idx,
    {
        let line: &String = &lines[idx];
        proof {
            assert(ls[idx as int] == line@);
        }
        if year == 0 {
            match parse_year_line(line.as_str()) {
                Some(y) => {
                    year = y;
                },
                None => {},
            }
        } else {
            match peek_game_month(line.as_str()) {
                None => {},
                Some(month_opt) => {
                    let ey: u16 = match month_opt {
                        Some(m) => {
                            if last_month != 0 && m < last_month {
                                if year == 65535 {
                                    return Err(ScheduleError::YearOverflow);
                                }
                                year + 1
                            } else {
                                year
                            }
                        },
                        None => year,
                    };
                    let game = match parse_game_line(line.as_str(), ey) {
                        Ok(g) => g,
                        Err(e) => {
                            return Err(e);
                        },
                    };
                    match game {
                        None => {
                            proof {
                                assert(false);
                            }
                        },
                        Some(g) => {
                            let off = match pacific_offset(
                                g.time.year,
                                g.time.month,
                                g.time.day,
                                g.time.hour,
                                g.time.minute,
                            ) {
                                Some(off) => off,
                                None => {
                                    return Err(
                                        ScheduleError::DateTimeParse { text: g.time_text },
                                    );
                                },
                            };
                            let start = match add_seconds(&g.time, -(off as i64)) {
                                Some(s) => s,
                                None => {
                                    return Err(ScheduleError::YearOverflow);
                                },
                            };
                            let end = match add_seconds(&start, EVENT_SECONDS) {
                                Some(s) => s,
                                None => {
                                    return Err(ScheduleError::YearOverflow);
                                },
                            };
                            proof {
                                lemma_timestamp_in_range(start);
                                lemma_timestamp_in_range(end);
                            }
                            let ghost rest = spec_convert_from(
                                ls,
                                idx as int + 1,
                                team,
                                ey as int,
                                game_month(ls[idx as int])->Some_0 as int,
                            );
                            let is_match = caseless_match(g.home.as_str(), team_name)
                                || caseless_match(g.away.as_str(), team_name);
                            if is_match {
                                let ev = build_event(&g, start, end);
                                let ghost pre = events.deep_view();
                                events.push(ev);
                                proof {
                                    assert(events.deep_view() =~= pre + seq![ev@]);
                                    if rest is Ok {
                                        assert((pre + seq![ev@]) + rest->Ok_0 =~= pre + (seq![ev@]
                                            + rest->Ok_0));
                                    }
                                }
                            }
                            let m: u8 = match month_opt {
                                Some(m) => m,
                                None => {
                                    proof {
                                        assert(false);
                                    }
                                    0
                                },
                            };
                            year = ey;
                            last_month = m;
                        },
                    }
                },
            }
        }
        idx = idx + 1;
    }
    Ok(events)
}

} // verus!
