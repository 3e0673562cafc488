//! The line classifier and field extractor for the schedule format.
//!
//! Two kinds of line are recognised. A year-declaration line carries the
//! token `CUP` followed by a four-digit year and nothing but whitespace to
//! the end of the line. A game line starts with a three-letter day
//! abbreviation, then a three-letter month abbreviation, a day-of-month
//! field, a clock time with an AM/PM marker, two spaces, and the two team
//! names separated by `vs`. The numeric fields are two columns wide and may
//! be padded with spaces, and the gap between the day and the clock time may
//! be any width of at least one space.

use vstd::prelude::*;
use vstd::string::StringExecFns;

use crate::chars::{digit_val, is_digit_char, is_space_char, is_upper_char};
use crate::datetime::{days_in_month, month_len, CivilDateTime};
use crate::strutil::{dec_digits, trim_range, trim_spec, u16_digits};

verus! {

/// A year declaration ` CUP YYYY` stands at position `i`, with only
/// whitespace after it.
pub open spec fn year_marker_at(s: Seq<char>, i: int) -> bool {
    &&& 0 <= i
    &&& i + 9 <= s.len()
    &&& s[i] == ' '
    &&& s[i + 1] == 'C'
    &&& s[i + 2] == 'U'
    &&& s[i + 3] == 'P'
    &&& s[i + 4] == ' '
    &&& is_digit_char(s[i + 5])
    &&& is_digit_char(s[i + 6])
    &&& is_digit_char(s[i + 7])
    &&& is_digit_char(s[i + 8])
    &&& forall|j: int| i + 9 <= j < s.len() ==> is_space_char(#[trigger] s[j])
}

pub open spec fn is_year_line(s: Seq<char>) -> bool {
    exists|i: int| year_marker_at(s, i)
}

/// The value of the four digits standing at a year marker.
pub open spec fn year_at(s: Seq<char>, i: int) -> int {
    1000 * digit_val(s[i + 5]) + 100 * digit_val(s[i + 6]) + 10 * digit_val(s[i + 7]) + digit_val(
        s[i + 8],
    )
}

/// The year declared by a year line.
pub open spec fn line_year(s: Seq<char>) -> int {
    year_at(s, choose|i: int| year_marker_at(s, i))
}

/// A line holds at most one year marker.
pub proof fn lemma_year_marker_unique(s: Seq<char>, i1: int, i2: int)
    requires
        year_marker_at(s, i1),
        year_marker_at(s, i2),
    ensures
        i1 == i2,
{
    if i1 < i2 {
        if i2 + 1 >= i1 + 9 {
            assert(is_space_char(s[i2 + 1]));
        }
        assert(false);
    }
    if i2 < i1 {
        if i1 + 1 >= i2 + 9 {
            assert(is_space_char(s[i1 + 1]));
        }
        assert(false);
    }
}

/// For every line that carries a year declaration, the declared year is the
/// value of the four digits after the `CUP` token, wherever the token stands
/// in the line and however much whitespace follows the digits.
pub proof fn lemma_year_line_value(s: Seq<char>, i: int)
    requires
        year_marker_at(s, i),
    ensures
        is_year_line(s),
        line_year(s) == year_at(s, i),
        0 <= line_year(s) <= 9999,
{
    let i0 = choose|j: int| year_marker_at(s, j);
    lemma_year_marker_unique(s, i0, i);
}

/// Recognises a year-declaration line and extracts the declared year.
/// Returns `None` on every other line.
pub fn parse_year_line(line: &str) -> (r: Option<u16>)
    ensures
        match r {
            Some(y) => is_year_line(line@) && y == line_year(line@),
            None => !is_year_line(line@),
        },
{
    let n = line.unicode_len();
    let mut i: usize = 0;
    while i < n
        invariant
            i <= n,
            n == line@.len(),
            forall|i2: int| 0 <= i2 < i ==> !year_marker_at(line@, i2),
        decreases n - i,
    {
        if marker_at(line, i) {
            let y: u16 = 1000 * digit_at(line, i + 5) + 100 * digit_at(line, i + 6) + 10
                * digit_at(line, i + 7) + digit_at(line, i + 8);
            proof {
                lemma_year_line_value(line@, i as int);
            }
            return Some(y);
        }
        i = i + 1;
    }
    proof {
        assert forall|i2: int| year_marker_at(line@, i2) implies false by {
            assert(0 <= i2 && i2 + 9 <= n);
        }
    }
    None
}

/// A column of a two-character numeric field: a digit or padding.
pub open spec fn digit_or_space(c: char) -> bool {
    is_digit_char(c) || c == ' '
}

/// The separator ` vs ` stands at position `k` of the team section.
pub open spec fn vs_at(t: Seq<char>, k: int) -> bool {
    &&& 0 <= k
    &&& k + 4 <= t.len()
    &&& t[k] == ' '
    &&& t[k + 1] == 'v'
    &&& t[k + 2] == 's'
    &&& t[k + 3] == ' '
}

pub open spec fn has_vs(t: Seq<char>) -> bool {
    exists|k: int| vs_at(t, k)
}

/// The position of the last ` vs ` separator, or `-1` when there is none.
/// The home name is everything before it, so a team name may itself contain
/// ` vs ` only on the home side.
pub open spec fn last_vs(t: Seq<char>) -> int
    decreases t.len(),
{
    if t.len() < 4 {
        -1
    } else if vs_at(t, t.len() - 4) {
        t.len() - 4
    } else {
        last_vs(t.drop_last())
    }
}

pub proof fn lemma_last_vs(t: Seq<char>, k: int)
    requires
        vs_at(t, k),
        forall|k2: int| k < k2 ==> !vs_at(t, k2),
    ensures
        last_vs(t) == k,
    decreases t.len(),
{
    if t.len() - 4 > k {
        let u = t.drop_last();
        assert(vs_at(u, k));
        assert forall|k2: int| k < k2 implies !vs_at(u, k2) by {
            if vs_at(u, k2) {
                assert(vs_at(t, k2));
            }
        }
        lemma_last_vs(u, k);
    }
}

/// The shape of a game line, with the clock's colon at position `c`: a
/// three-letter day abbreviation, a three-letter month abbreviation, a
/// two-column day field, a gap of at least one space, a two-column hour
/// field, minutes, an AM/PM marker, two spaces, and the team section with a
/// ` vs ` separator.
pub open spec fn game_shape_at(s: Seq<char>, c: int) -> bool {
    &&& 13 <= c
    &&& c + 12 <= s.len()
    &&& (forall|j: int| 0 <= j < 3 ==> is_upper_char(#[trigger] s[j]))
    &&& s[3] == ' '
    &&& (forall|j: int| 4 <= j < 7 ==> is_upper_char(#[trigger] s[j]))
    &&& s[7] == ' '
    &&& digit_or_space(s[8])
    &&& digit_or_space(s[9])
    &&& (forall|j: int| 10 <= j < c - 2 ==> s[j] == ' ')
    &&& digit_or_space(s[c - 2])
    &&& digit_or_space(s[c - 1])
    &&& s[c] == ':'
    &&& is_digit_char(s[c + 1])
    &&& is_digit_char(s[c + 2])
    &&& s[c + 3] == ' '
    &&& (s[c + 4] == 'A' || s[c + 4] == 'P')
    &&& s[c + 5] == 'M'
    &&& s[c + 6] == ' '
    &&& s[c + 7] == ' '
    &&& has_vs(s.subrange(c + 8, s.len() as int))
}

pub open spec fn is_game_line(s: Seq<char>) -> bool {
    exists|c: int| game_shape_at(s, c)
}

/// The position of the clock's colon in a game line.
pub open spec fn game_colon(s: Seq<char>) -> int {
    choose|c: int| game_shape_at(s, c)
}

/// If a game shape stands at `c2`, then `c2` is the first colon at or after
/// position 10.
pub proof fn lemma_shape_fixes_colon(s: Seq<char>, c: int, c2: int)
    requires
        game_shape_at(s, c2),
        10 <= c < s.len(),
        s[c] == ':',
        forall|j: int| 10 <= j < c ==> s[j] != ':',
    ensures
        c2 == c,
{
    if c2 < c {
        assert(s[c2] == ':');
    }
    if c2 > c {
        if c < c2 - 2 {
            assert(s[c] == ' ');
        } else if c == c2 - 2 || c == c2 - 1 {
            assert(digit_or_space(s[c]));
        }
    }
}

/// A line holds at most one game shape.
pub proof fn lemma_game_shape_unique(s: Seq<char>, c1: int, c2: int)
    requires
        game_shape_at(s, c1),
        game_shape_at(s, c2),
    ensures
        c1 == c2,
{
    assert forall|j: int| 10 <= j < c1 implies s[j] != ':' by {
        if j < c1 - 2 {
            assert(s[j] == ' ');
        } else {
            assert(digit_or_space(s[j]));
        }
    }
    lemma_shape_fixes_colon(s, c1, c2);
}

/// The month number named by a three-letter abbreviation, as the schedule
/// prints it.
pub open spec fn month_num(a: char, b: char, c: char) -> Option<int> {
    if a == 'J' && b == 'A' && c == 'N' {
        Some(1)
    } else if a == 'F' && b == 'E' && c == 'B' {
        Some(2)
    } else if a == 'M' && b == 'A' && c == 'R' {
        Some(3)
    } else if a == 'A' && b == 'P' && c == 'R' {
        Some(4)
    } else if a == 'M' && b == 'A' && c == 'Y' {
        Some(5)
    } else if a == 'J' && b == 'U' && c == 'N' {
        Some(6)
    } else if a == 'J' && b == 'U' && c == 'L' {
        Some(7)
    } else if a == 'A' && b == 'U' && c == 'G' {
        Some(8)
    } else if a == 'S' && b == 'E' && c == 'P' {
        Some(9)
    } else if a == 'O' && b == 'C' && c == 'T' {
        Some(10)
    } else if a == 'N' && b == 'O' && c == 'V' {
        Some(11)
    } else if a == 'D' && b == 'E' && c == 'C' {
        Some(12)
    } else {
        None
    }
}

/// The value of a two-column field that may be padded on either side: the
/// gap that follows the day field absorbs a trailing space.
pub open spec fn padded_field(a: char, b: char) -> Option<int> {
    if is_digit_char(a) && is_digit_char(b) {
        Some(10 * digit_val(a) + digit_val(b))
    } else if a == ' ' && is_digit_char(b) {
        Some(digit_val(b))
    } else if is_digit_char(a) && b == ' ' {
        Some(digit_val(a))
    } else {
        None
    }
}

/// The value of the hour field: it may be padded on the left only, since a
/// space between the hour digit and the colon does not read as a clock time.
pub open spec fn clock_hour_field(a: char, b: char) -> Option<int> {
    if is_digit_char(a) && is_digit_char(b) {
        Some(10 * digit_val(a) + digit_val(b))
    } else if a == ' ' && is_digit_char(b) {
        Some(digit_val(b))
    } else {
        None
    }
}

/// A clock hour with an AM/PM marker, as an hour of the 24-hour day.
pub open spec fn hour24(h12: int, pm: bool) -> int
    recommends
        1 <= h12 <= 12,
{
    if pm {
        if h12 == 12 {
            12
        } else {
            h12 + 12
        }
    } else {
        if h12 == 12 {
            0
        } else {
            h12
        }
    }
}

/// The team section of a game line: everything after the two spaces that
/// follow the AM/PM marker.
pub open spec fn game_tail(s: Seq<char>) -> Seq<char> {
    s.subrange(game_colon(s) + 8, s.len() as int)
}

pub open spec fn game_month(s: Seq<char>) -> Option<int> {
    month_num(s[4], s[5], s[6])
}

pub open spec fn game_day(s: Seq<char>) -> Option<int> {
    padded_field(s[8], s[9])
}

pub open spec fn game_hour12(s: Seq<char>) -> Option<int> {
    clock_hour_field(s[game_colon(s) - 2], s[game_colon(s) - 1])
}

pub open spec fn game_minute(s: Seq<char>) -> int {
    10 * digit_val(s[game_colon(s) + 1]) + digit_val(s[game_colon(s) + 2])
}

pub open spec fn game_is_pm(s: Seq<char>) -> bool {
    s[game_colon(s) + 4] == 'P'
}

/// The home team's name: the trimmed text before the last ` vs `.
pub open spec fn game_home(s: Seq<char>) -> Seq<char> {
    trim_spec(game_tail(s).subrange(0, last_vs(game_tail(s))))
}

/// The away team's name: the trimmed text after the last ` vs `.
pub open spec fn game_away(s: Seq<char>) -> Seq<char> {
    trim_spec(game_tail(s).subrange(last_vs(game_tail(s)) + 4, game_tail(s).len() as int))
}

/// The date and clock fields of a game line name a time that exists in the
/// calendar of year `y`.
pub open spec fn game_fields_ok(s: Seq<char>, y: int) -> bool {
    &&& game_month(s) is Some
    &&& game_day(s) is Some
    &&& game_hour12(s) is Some
    &&& 1 <= game_day(s)->Some_0 <= days_in_month(y, game_month(s)->Some_0)
    &&& 1 <= game_hour12(s)->Some_0 <= 12
    &&& game_minute(s) <= 59
}

/// The wall-clock time of a game line, under year `y`.
pub open spec fn game_time(s: Seq<char>, y: int) -> CivilDateTime
    recommends
        game_fields_ok(s, y),
{
    CivilDateTime {
        year: y as u16,
        month: game_month(s)->Some_0 as u8,
        day: game_day(s)->Some_0 as u8,
        hour: hour24(game_hour12(s)->Some_0, game_is_pm(s)) as u8,
        minute: game_minute(s) as u8,
        second: 0,
    }
}

/// The text reported when the date or clock of a game line does not name a
/// real time: the date-time section of the line, followed by the year it
/// was read under.
pub open spec fn game_err_text(s: Seq<char>, y: int) -> Seq<char> {
    s.subrange(4, game_colon(s) + 6).push(' ') + dec_digits(y)
}

/// A game parsed from a game line: the two team names as printed (trimmed),
/// the wall-clock time of the game, and the date-time text of the source
/// line (with the year in use appended), kept for error reports.
pub struct GameRecord {
    pub home: String,
    pub away: String,
    pub time: CivilDateTime,
    pub time_text: String,
}

pub ghost struct GameRecordModel {
    pub home: Seq<char>,
    pub away: Seq<char>,
    pub time: CivilDateTime,
    pub time_text: Seq<char>,
}

impl View for GameRecord {
    type V = GameRecordModel;

    open spec fn view(&self) -> GameRecordModel {
        GameRecordModel {
            home: self.home@,
            away: self.away@,
            time: self.time,
            time_text: self.time_text@,
        }
    }
}

/// Why a conversion run stopped.
#[derive(Debug)]
pub enum ScheduleError {
    /// A game line's date or clock did not name a real time; carries the
    /// offending date-time text.
    DateTimeParse { text: String },
    /// A year rollover or a time-zone shift left the representable years.
    YearOverflow,
}

pub ghost enum ScheduleErrorModel {
    DateTimeParse(Seq<char>),
    YearOverflow,
}

impl View for ScheduleError {
    type V = ScheduleErrorModel;

    open spec fn view(&self) -> ScheduleErrorModel {
        match self {
            ScheduleError::DateTimeParse { text } => ScheduleErrorModel::DateTimeParse(text@),
            ScheduleError::YearOverflow => ScheduleErrorModel::YearOverflow,
        }
    }
}

impl ScheduleError {
    /// A short description of the error.
    pub fn message(&self) -> (r: String)
        ensures
            match self {
                ScheduleError::DateTimeParse { text } => r@ == "Failed to parse datetime string: "@
                    + text@,
                ScheduleError::YearOverflow => r@ == "Year out of range"@,
            },
    {
        match self {
            ScheduleError::DateTimeParse { text } => {
                let mut m = String::from_str("Failed to parse datetime string: ");
                m.append(text.as_str());
                m
            },
            ScheduleError::YearOverflow => String::from_str("Year out of range"),
        }
    }
}

/// What a line means to the game parser.
pub ghost enum GameParse {
    /// Not a game line.
    NotGame,
    /// A game line whose date or clock does not name a real time; carries
    /// the offending text.
    BadTime(Seq<char>),
    /// A game.
    Game(GameRecordModel),
}

/// The meaning of one line to the game parser, under year `y`.
pub open spec fn spec_parse_game(s: Seq<char>, y: int) -> GameParse {
    if !is_game_line(s) {
        GameParse::NotGame
    } else if !game_fields_ok(s, y) {
        GameParse::BadTime(game_err_text(s, y))
    } else {
        GameParse::Game(
            GameRecordModel {
                home: game_home(s),
                away: game_away(s),
                time: game_time(s, y),
                time_text: game_err_text(s, y),
            },
        )
    }
}

/// The numeric value of the digit standing at position `i`.
fn digit_at(line: &str, i: usize) -> (d: u16)
    requires
        i < line@.len(),
        is_digit_char(line@[i as int]),
    ensures
        d == digit_val(line@[i as int]),
        d <= 9,
{
    let c = line.get_char(i);
    (c as u32 - 48) as u16
}

/// Decides whether a year marker stands at position `i`.
fn marker_at(line: &str, i: usize) -> (r: bool)
    requires
        i < line@.len(),
    ensures
        r == year_marker_at(line@, i as int),
{
    let n = line.unicode_len();
    if n < 9 || i > n - 9 {
        return false;
    }
    if !(line.get_char(i) == ' ' && line.get_char(i + 1) == 'C' && line.get_char(i + 2) == 'U'
        && line.get_char(i + 3) == 'P' && line.get_char(i + 4) == ' ') {
        return false;
    }
    let mut j: usize = i + 5;
    while j < i + 9
        invariant
            i + 5 <= j <= i + 9,
            i + 9 <= n == line@.len(),
            forall|j2: int| i + 5 <= j2 < j ==> is_digit_char(#[trigger] line@[j2]),
        decreases i + 9 - j,
    {
        let c = line.get_char(j);
        if !('0' <= c && c <= '9') {
            return false;
        }
        j = j + 1;
    }
    let mut k: usize = i + 9;
    while k < n
        invariant
            i + 9 <= k <= n == line@.len(),
            forall|k2: int| i + 9 <= k2 < k ==> is_space_char(#[trigger] line@[k2]),
            forall|j2: int| i + 5 <= j2 < i + 9 ==> is_digit_char(#[trigger] line@[j2]),
        decreases n - k,
    {
        let c = line.get_char(k);
        if !(c == ' ' || c == '\t' || c == '\r' || c == '\n' || c == '\u{b}' || c == '\u{c}') {
            return false;
        }
        k = k + 1;
    }
    true
}

/// A wider or narrower run of padding spaces between the day field and the
/// clock changes nothing: two game lines with the same ten-character head
/// and the same text from the hour field onward parse to the same date,
/// time and teams.
pub proof fn lemma_game_line_padding(s1: Seq<char>, s2: Seq<char>, y: int)
    requires
        is_game_line(s1),
        is_game_line(s2),
        s1.subrange(0, 10) == s2.subrange(0, 10),
        s1.subrange(game_colon(s1) - 2, s1.len() as int) == s2.subrange(
            game_colon(s2) - 2,
            s2.len() as int,
        ),
    ensures
        game_month(s1) == game_month(s2),
        game_day(s1) == game_day(s2),
        game_hour12(s1) == game_hour12(s2),
        game_minute(s1) == game_minute(s2),
        game_is_pm(s1) == game_is_pm(s2),
        game_home(s1) == game_home(s2),
        game_away(s1) == game_away(s2),
        game_fields_ok(s1, y) == game_fields_ok(s2, y),
        game_fields_ok(s1, y) ==> game_time(s1, y) == game_time(s2, y),
{
    let c1 = game_colon(s1);
    let c2 = game_colon(s2);
    assert(game_shape_at(s1, c1));
    assert(game_shape_at(s2, c2));
    let h = s1.subrange(0, 10);
    assert(s1[4] == h[4] && s1[5] == h[5] && s1[6] == h[6] && s1[8] == h[8] && s1[9] == h[9]);
    let t1 = s1.subrange(c1 - 2, s1.len() as int);
    let t2 = s2.subrange(c2 - 2, s2.len() as int);
    assert(s1[c1 - 2] == t1[0] && s1[c1 - 1] == t1[1]);
    assert(s2[c2 - 2] == t2[0] && s2[c2 - 1] == t2[1]);
    assert(s1[c1 + 1] == t1[3] && s1[c1 + 2] == t1[4]);
    assert(s2[c2 + 1] == t2[3] && s2[c2 + 2] == t2[4]);
    assert(s1[c1 + 4] == t1[6] && s2[c2 + 4] == t2[6]);
    assert(game_tail(s1) =~= t1.subrange(10, t1.len() as int));
    assert(game_tail(s2) =~= t2.subrange(10, t2.len() as int));
    assert(game_tail(s1) == game_tail(s2));
}

/// True when an uppercase letter stands at position `i`.
fn upper_at(line: &str, i: usize) -> (r: bool)
    requires
        i < line@.len(),
    ensures
        r == is_upper_char(line@[i as int]),
{
    let c = line.get_char(i);
    'A' <= c && c <= 'Z'
}

/// True when a digit or a space stands at position `i`.
fn dos_at(line: &str, i: usize) -> (r: bool)
    requires
        i < line@.len(),
    ensures
        r == digit_or_space(line@[i as int]),
{
    let c = line.get_char(i);
    ('0' <= c && c <= '9') || c == ' '
}

/// True when only spaces stand in positions `from .. to`.
fn all_spaces(line: &str, from: usize, to: usize) -> (r: bool)
    requires
        from <= to <= line@.len(),
    ensures
        r == forall|j: int| from <= j < to ==> line@[j] == ' ',
{
    let mut j: usize = from;
    while j < to
        invariant
            from <= j <= to <= line@.len(),
            forall|j2: int| from <= j2 < j ==> line@[j2] == ' ',
        decreases to - j,
    {
        if line.get_char(j) != ' ' {
            return false;
        }
        j = j + 1;
    }
    true
}

/// Locates the game shape in a line: the colon position and the absolute
/// position of the last ` vs ` separator.
#[verifier::loop_isolation(false)]
fn find_game_shape(line: &str) -> (r: Option<(usize, usize)>)
    ensures
        match r {
            Some((c, k)) => {
                &&& game_shape_at(line@, c as int)
                &&& game_colon(line@) == c as int
                &&& c + 12 <= line@.len()
                &&& c + 8 <= k && k + 4 <= line@.len()
                &&& last_vs(game_tail(line@)) == k - (c + 8)
            },
            None => !is_game_line(line@),
        },
{
    let ghost s = line@;
    let n = line.unicode_len();
    if n < 25 {
        proof {
            if is_game_line(s) {
                let c2 = choose|c2: int| game_shape_at(s, c2);
                assert(false);
            }
        }
        return None;
    }
    let prefix_ok = upper_at(line, 0) && upper_at(line, 1) && upper_at(line, 2) && line.get_char(3)
        == ' ' && upper_at(line, 4) && upper_at(line, 5) && upper_at(line, 6) && line.get_char(7)
        == ' ' && dos_at(line, 8) && dos_at(line, 9);
    if !prefix_ok {
        proof {
            if is_game_line(s) {
                let c2 = choose|c2: int| game_shape_at(s, c2);
                assert(false);
            }
        }
        return None;
    }
    let mut c: usize = 10;
    while c < n && line.get_char(c) != ':'
        invariant
            10 <= c <= n == line@.len(),
            forall|j: int| 10 <= j < c ==> line@[j] != ':',
        decreases n - c,
    {
        c = c + 1;
    }
    if c == n {
        proof {
            if is_game_line(s) {
                let c2 = choose|c2: int| game_shape_at(s, c2);
                assert(s[c2] == ':' && 10 <= c2 < n);
                assert(false);
            }
        }
        return None;
    }
    let shape_ok = c >= 13 && c <= n - 12 && all_spaces(line, 10, c - 2) && dos_at(line, c - 2)
        && dos_at(line, c - 1) && {
        let m1 = line.get_char(c + 1);
        let m2 = line.get_char(c + 2);
        ('0' <= m1 && m1 <= '9') && ('0' <= m2 && m2 <= '9')
    } && line.get_char(c + 3) == ' ' && {
        let ap = line.get_char(c + 4);
        ap == 'A' || ap == 'P'
    } && line.get_char(c + 5) == 'M' && line.get_char(c + 6) == ' ' && line.get_char(c + 7) == ' ';
    if !shape_ok {
        proof {
            if is_game_line(s) {
                let c2 = choose|c2: int| game_shape_at(s, c2);
                lemma_shape_fixes_colon(s, c as int, c2);
                assert(false);
            }
        }
        return None;
    }
    let ghost tail = s.subrange(c + 8, s.len() as int);
    let mut k: usize = n - 3;
    while k > c + 8
        invariant
            c + 8 <= k <= n - 3,
            n == line@.len(),
            c + 12 <= n,
            forall|a: int|
                k <= a && a + 4 <= n ==> !(#[trigger] line@[a] == ' ' && line@[a + 1] == 'v'
                    && line@[a + 2] == 's' && line@[a + 3] == ' '),
        decreases k,
    {
        k = k - 1;
        if line.get_char(k) == ' ' && line.get_char(k + 1) == 'v' && line.get_char(k + 2) == 's'
            && line.get_char(k + 3) == ' ' {
            proof {
                assert(tail.len() == n - (c + 8));
                assert forall|i: int| 0 <= i < tail.len() implies tail[i] == s[c + 8 + i] by {}
                assert(vs_at(tail, k - (c + 8)));
                assert forall|k2: int| k - (c + 8) < k2 implies !vs_at(tail, k2) by {
                    if vs_at(tail, k2) {
                        let a = k2 + c + 8;
                        assert(s[a] == ' ' && s[a + 1] == 'v' && s[a + 2] == 's' && s[a + 3]
                            == ' ');
                    }
                }
                lemma_last_vs(tail, k - (c + 8));
                assert(has_vs(tail));
                assert(game_shape_at(s, c as int));
                let c0 = game_colon(s);
                assert(game_shape_at(s, c0));
                lemma_game_shape_unique(s, c0, c as int);
                assert(game_tail(s) == tail);
            }
            return Some((c, k));
        }
        proof {
            assert(!(line@[k as int] == ' ' && line@[k as int + 1] == 'v' && line@[k as int + 2]
                == 's' && line@[k as int + 3] == ' '));
        }
    }
    proof {
        if is_game_line(s) {
            let c2 = choose|c2: int| game_shape_at(s, c2);
            lemma_shape_fixes_colon(s, c as int, c2);
            let t2 = s.subrange(c2 + 8, s.len() as int);
            assert(has_vs(t2));
            let k2 = choose|k2: int| vs_at(t2, k2);
            let a = k2 + c + 8;
            assert(s[a] == ' ' && s[a + 1] == 'v' && s[a + 2] == 's' && s[a + 3] == ' ');
            assert(k <= a && a + 4 <= n);
            assert(false);
        }
    }
    None
}

/// The month written at the head of a game line's date, if the three
/// letters name one.
fn month_from_chars(a: char, b: char, c: char) -> (r: Option<u8>)
    ensures
        match r {
            Some(m) => month_num(a, b, c) == Some(m as int) && 1 <= m <= 12,
            None => month_num(a, b, c) is None,
        },
{
    if a == 'J' && b == 'A' && c == 'N' {
        Some(1)
    } else if a == 'F' && b == 'E' && c == 'B' {
        Some(2)
    } else if a == 'M' && b == 'A' && c == 'R' {
        Some(3)
    } else if a == 'A' && b == 'P' && c == 'R' {
        Some(4)
    } else if a == 'M' && b == 'A' && c == 'Y' {
        Some(5)
    } else if a == 'J' && b == 'U' && c == 'N' {
        Some(6)
    } else if a == 'J' && b == 'U' && c == 'L' {
        Some(7)
    } else if a == 'A' && b == 'U' && c == 'G' {
        Some(8)
    } else if a == 'S' && b == 'E' && c == 'P' {
        Some(9)
    } else if a == 'O' && b == 'C' && c == 'T' {
        Some(10)
    } else if a == 'N' && b == 'O' && c == 'V' {
        Some(11)
    } else if a == 'D' && b == 'E' && c == 'C' {
        Some(12)
    } else {
        None
    }
}

/// The value of a two-column field that may be padded on either side.
fn padded_value(a: char, b: char) -> (r: Option<u8>)
    ensures
        match r {
            Some(v) => padded_field(a, b) == Some(v as int) && v <= 99,
            None => padded_field(a, b) is None,
        },
{
    let da = '0' <= a && a <= '9';
    let db = '0' <= b && b <= '9';
    if da && db {
        Some(10 * (a as u8 - 48) + (b as u8 - 48))
    } else if a == ' ' && db {
        Some(b as u8 - 48)
    } else if da && b == ' ' {
        Some(a as u8 - 48)
    } else {
        None
    }
}

/// The value of the hour field, which may be padded on the left only.
fn clock_hour_value(a: char, b: char) -> (r: Option<u8>)
    ensures
        match r {
            Some(v) => clock_hour_field(a, b) == Some(v as int) && v <= 99,
            None => clock_hour_field(a, b) is None,
        },
{
    let da = '0' <= a && a <= '9';
    let db = '0' <= b && b <= '9';
    if da && db {
        Some(10 * (a as u8 - 48) + (b as u8 - 48))
    } else if a == ' ' && db {
        Some(b as u8 - 48)
    } else {
        None
    }
}

/// Reads the month field out of a game line without parsing the rest, so
/// that a year rollover can be decided before the full time is resolved.
/// Returns `None` for a line that is not shaped like a game, and otherwise
/// the month field's value, if its three letters name a month.
pub fn peek_game_month(line: &str) -> (r: Option<Option<u8>>)
    ensures
        match r {
            None => !is_game_line(line@),
            Some(mo) => is_game_line(line@) && match mo {
                Some(m) => game_month(line@) == Some(m as int) && 1 <= m <= 12,
                None => game_month(line@) is None,
            },
        },
{
    match find_game_shape(line) {
        None => None,
        Some(_) => Some(
            month_from_chars(line.get_char(4), line.get_char(5), line.get_char(6)),
        ),
    }
}

/// Recognises a game line and extracts the game under year `year`.
///
/// Returns `Ok(None)` for every line that is not shaped like a game,
/// `Ok(Some(..))` for a game whose date and clock name a real time of year
/// `year`, and an error carrying the offending text otherwise.
pub fn parse_game_line(line: &str, year: u16) -> (r: Result<Option<GameRecord>, ScheduleError>)
    ensures
        match r {
            Ok(None) => spec_parse_game(line@, year as int) is NotGame,
            Ok(Some(g)) => spec_parse_game(line@, year as int) == GameParse::Game(g@)
                && g.time.wf(),
            Err(e) => e matches ScheduleError::DateTimeParse { text } && spec_parse_game(
                line@,
                year as int,
            ) == GameParse::BadTime(text@),
        },
{
    let ghost s = line@;
    let found = find_game_shape(line);
    match found {
        None => Ok(None),
        Some((c, k)) => {
            let n = line.unicode_len();
            let piece = line.substring_char(4, c + 6);
            let mut text = String::from_str(piece);
            text.push(' ');
            let ydigits = u16_digits(year);
            text.append(ydigits.as_str());
            proof {
                assert(text@ =~= game_err_text(s, year as int));
            }
            let month_opt = month_from_chars(
                line.get_char(4),
                line.get_char(5),
                line.get_char(6),
            );
            let day_opt = padded_value(line.get_char(8), line.get_char(9));
            let hour_opt = clock_hour_value(line.get_char(c - 2), line.get_char(c - 1));
            let minute: u8 = 10 * (line.get_char(c + 1) as u8 - 48) + (line.get_char(c + 2) as u8
                - 48);
            let pm = line.get_char(c + 4) == 'P';
            proof {
                assert(minute == game_minute(s));
            }
            let fields = match (month_opt, day_opt, hour_opt) {
                (Some(mo), Some(d), Some(h)) => {
                    if 1 <= d && d <= month_len(year, mo) && 1 <= h && h <= 12 && minute <= 59 {
                        Some((mo, d, h))
                    } else {
                        None
                    }
                },
                _ => None,
            };
            match fields {
                None => {
                    proof {
                        assert(!game_fields_ok(s, year as int));
                    }
                    Err(ScheduleError::DateTimeParse { text })
                },
                Some((mo, d, h)) => {
                    let hh: u8 = if pm {
                        if h == 12 {
                            12
                        } else {
                            h + 12
                        }
                    } else {
                        if h == 12 {
                            0
                        } else {
                            h
                        }
                    };
                    let time = CivilDateTime {
                        year,
                        month: mo,
                        day: d,
                        hour: hh,
                        minute,
                        second: 0,
                    };
                    let home = trim_range(line, c + 8, k);
                    let away = trim_range(line, k + 4, n);
                    proof {
                        assert(game_fields_ok(s, year as int));
                        assert(time == game_time(s, year as int));
                        assert(time.wf());
                        let tail = game_tail(s);
                        let kk = last_vs(tail);
                        assert(tail.subrange(0, kk) =~= s.subrange(c + 8, k as int));
                        assert(tail.subrange(kk + 4, tail.len() as int) =~= s.subrange(
                            k + 4,
                            n as int,
                        ));
                        assert(home@ == game_home(s));
                        assert(away@ == game_away(s));
                    }
                    Ok(Some(GameRecord { home, away, time, time_text: text }))
                },
            }
        },
    }
}

} // verus!
