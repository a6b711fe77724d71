//! Points in time, their texts, and the range of an agenda request.
use vstd::prelude::*;

use chrono::TimeZone;

use crate::error::{failure, CalendarError, Result};

verus! {

/// A point in time: whole seconds since the start of 1970 in UTC, and nanoseconds on top of them.
#[derive(Clone, Copy, Debug, PartialEq, Eq, Structural)]
pub struct Timestamp {
    pub seconds: i64,
    pub nanos: u32,
}

impl Timestamp {
    /// Whether this point in time is earlier than another.
    pub open spec fn lt(self, other: Timestamp) -> bool {
        self.seconds < other.seconds || (self.seconds == other.seconds && self.nanos < other.nanos)
    }

    /// Whether this point in time is earlier than another.
    pub fn earlier(&self, other: &Timestamp) -> (result: bool)
        ensures
            result == self.lt(*other),
    {
        self.seconds < other.seconds || (self.seconds == other.seconds && self.nanos < other.nanos)
    }

    /// Whether `chrono` can represent this point in time: it is in the calendar of `chrono`, and
    /// more than a second of nanoseconds stands only on the last second of a minute.
    pub open spec fn is_representable(self) -> bool {
        &&& in_calendar(self.seconds as int)
        &&& self.nanos < 1000000000 || (self.nanos < 2000000000 && self.seconds as int % 60 == 59)
    }

}

/// Whether the point in time some days after another can be represented.
pub open spec fn can_shift(timestamp: Timestamp, days: int) -> bool {
    in_calendar(timestamp.seconds + days * 86400) && days_after(timestamp, days).is_representable()
}

/// The point in time some days after another, where it can be represented.
pub open spec fn days_after(timestamp: Timestamp, days: int) -> Timestamp {
    Timestamp { seconds: (timestamp.seconds + days * 86400) as i64, nanos: timestamp.nanos }
}

/// Whether a number of seconds since the start of 1970 is between the start of the year -262143 and
/// the end of the year 262142.
pub open spec fn in_calendar(seconds: int) -> bool {
    -8334601228800 <= seconds <= 8210266876799
}

/// Whether a number of seconds since the start of 1970 is in the years 1 to 9999.
pub open spec fn in_common_years(seconds: int) -> bool {
    -62135596800 <= seconds <= 253402300799
}

/// The current time, as a point and as text.
#[derive(Debug)]
pub struct Now {
    pub instant: Timestamp,
    pub text: String,
}

/// The point in time that `chrono` reads from a text in the format of RFC 3339.
pub uninterp spec fn rfc3339(text: Seq<char>) -> Option<Timestamp>;

/// Reads a text with `chrono::DateTime::parse_from_rfc3339`. Both its success and the point in
/// time are functions of the text alone.
#[verifier::external_body]
fn chrono_rfc3339(text: &str) -> (timestamp: Option<Timestamp>)
    ensures
        timestamp == rfc3339(text@),
{
    chrono::DateTime::parse_from_rfc3339(text).ok().map(
        |time| Timestamp { seconds: time.timestamp(), nanos: time.timestamp_subsec_nanos() },
    )
}

/// The text in the format of RFC 3339, with microseconds, that `chrono` writes for a point in time
/// that it can represent.
pub uninterp spec fn micros_text(timestamp: Timestamp) -> Seq<char>;

/// Writes a point in time with `chrono::DateTime::to_rfc3339_opts`. There is a text exactly where
/// `chrono` can represent the point in time, and it is a function of that alone.
#[verifier::external_body]
fn chrono_micros(timestamp: &Timestamp) -> (text: Option<String>)
    ensures
        match text {
            Some(value) => timestamp.is_representable() && value@ == micros_text(*timestamp),
            None => !timestamp.is_representable(),
        },
{
    chrono::DateTime::from_timestamp(timestamp.seconds, timestamp.nanos).map(
        |time| time.to_rfc3339_opts(chrono::SecondsFormat::Micros, true),
    )
}

/// A quotient, rounded towards zero.
pub open spec fn quotient(number: int, divisor: int) -> int {
    if number >= 0 {
        number / divisor
    } else {
        -(-number / divisor)
    }
}

/// The leap second between two times of day, where one of them is in it.
pub open spec fn leap_between(from: Timestamp, to: Timestamp) -> int {
    let start = from.seconds as int % 86400;
    let end = to.seconds as int % 86400;
    if end > start && from.nanos >= 1000000000 {
        1
    } else if end < start && to.nanos >= 1000000000 {
        -1
    } else {
        0
    }
}

/// The whole days from one point in time to another; none where `chrono` cannot represent one of
/// them.
pub open spec fn days_between(from: Timestamp, to: Timestamp) -> Option<int> {
    if from.is_representable() && to.is_representable() {
        let seconds = to.seconds - from.seconds + leap_between(from, to);
        let nanos = seconds * 1000000000 + (to.nanos - from.nanos);
        Some(quotient(nanos, 86400000000000))
    } else {
        None
    }
}

/// Counts days with `chrono::DateTime::signed_duration_since` and `num_days`: the time between the
/// two, in days, rounded towards zero.
#[verifier::external_body]
fn chrono_days(from: &Timestamp, to: &Timestamp) -> (days: Option<i64>)
    ensures
        match days {
            Some(days) => days_between(*from, *to) == Some(days as int),
            None => days_between(*from, *to) is None,
        },
{
    let start = chrono::DateTime::from_timestamp(from.seconds, from.nanos)?;
    let end = chrono::DateTime::from_timestamp(to.seconds, to.nanos)?;
    Some(end.signed_duration_since(start).num_days())
}

/// The wall-clock time that `chrono` reads from a text in a given format, as the point in time at
/// which a clock set to UTC shows it.
pub uninterp spec fn wall_clock(text: Seq<char>, format: Seq<char>) -> Option<Timestamp>;

/// Reads a text with `chrono::NaiveDateTime::parse_from_str`. The result is a function of the
/// text and the format alone.
#[verifier::external_body]
fn chrono_wall_clock(text: &str, format: &str) -> (wall: Option<Timestamp>)
    ensures
        wall == wall_clock(text@, format@),
{
    chrono::NaiveDateTime::parse_from_str(text, format).ok().map(|time| time.and_utc()).map(
        |time| Timestamp { seconds: time.timestamp(), nanos: time.timestamp_subsec_nanos() },
    )
}

/// The midnight at the start of the date that `chrono` reads from a text of the form `%Y-%m-%d`,
/// as the point in time at which a clock set to UTC shows it.
pub uninterp spec fn midnight(text: Seq<char>) -> Option<Timestamp>;

/// Whether a character is a digit.
pub open spec fn is_digit(c: char) -> bool {
    '0' <= c <= '9'
}

/// Whether a text has the form of a date: four digits, two and two, with hyphens between them.
pub open spec fn is_day_form(text: Seq<char>) -> bool {
    &&& text.len() == 10
    &&& forall|i: int|
        0 <= i < 10 ==> if i == 4 || i == 7 {
            #[trigger] text[i] == '-'
        } else {
            is_digit(text[i])
        }
}

/// The midnight at which a day begins, on a clock set to UTC.
pub open spec fn day_start(seconds: int) -> Timestamp {
    Timestamp { seconds: (seconds - seconds % 86400) as i64, nanos: 0 }
}

/// The text of the form `%Y-%m-%d` that `chrono` writes for the date at some seconds since the start
/// of 1970, on a clock set to UTC.
pub uninterp spec fn day_text(seconds: int) -> Seq<char>;

/// Writes the date of `chrono::DateTime::date_naive`. There is one exactly in the calendar of
/// `chrono`, and it is a function of the seconds alone. In the common years it has ten characters,
/// and `chrono::NaiveDate::parse_from_str` reads it as the date that it is.
#[verifier::external_body]
fn chrono_day(seconds: i64) -> (text: Option<String>)
    ensures
        match text {
            Some(value) => in_calendar(seconds as int) && value@ == day_text(seconds as int),
            None => !in_calendar(seconds as int),
        },
        text is Some && in_common_years(seconds as int) ==> is_day_form(text->0@) && midnight(
            text->0@,
        ) == Some(day_start(seconds as int)),
{
    chrono::DateTime::from_timestamp(seconds, 0).map(|time| time.date_naive().to_string())
}

/// Reads a date with `chrono::NaiveDate::parse_from_str`. The result is a function of the text
/// alone, and a text in the form of a date is what `chrono` writes for the date that it is read as.
#[verifier::external_body]
fn chrono_midnight(text: &str) -> (wall: Option<Timestamp>)
    ensures
        wall == midnight(text@),
        wall is Some && is_day_form(text@) ==> day_text(wall->0.seconds as int) == text@,
{
    chrono::NaiveDate::parse_from_str(text, "%Y-%m-%d").ok().map(
        |date| date.and_time(chrono::NaiveTime::MIN).and_utc(),
    ).map(|time| Timestamp { seconds: time.timestamp(), nanos: time.timestamp_subsec_nanos() })
}

/// What a wall-clock time means where the machine stands.
#[derive(Clone, Copy, Debug)]
pub enum LocalTime {
    /// No such time exists there.
    Missing,
    /// Exactly one point in time.
    Single(Timestamp),
    /// Either of two points in time, the one with the smaller offset from UTC first.
    Ambiguous(Timestamp, Timestamp),
}

/// Whether a clock of some zone shows a wall-clock time at a point in time: no zone is a whole day
/// from UTC, nor does a zone change what is less than a second.
pub open spec fn shown_near(wall: Timestamp, instant: Timestamp) -> bool {
    instant.nanos == wall.nanos && wall.seconds - 86400 < instant.seconds < wall.seconds + 86400
}

/// Whether a wall-clock time can mean this in some zone.
pub open spec fn can_mean(wall: Timestamp, local: LocalTime) -> bool {
    match local {
        LocalTime::Missing => true,
        LocalTime::Single(instant) => shown_near(wall, instant),
        LocalTime::Ambiguous(first, second) => shown_near(wall, first) && shown_near(wall, second),
    }
}

/// Whether a zone can be so many seconds ahead of UTC.
pub open spec fn is_offset(seconds: int) -> bool {
    -86400 < seconds < 86400
}

/// Asks `chrono::Local` for the points in time at which local clocks show a wall-clock time. Which
/// those are depends on the time zone of the machine; each is the wall-clock time less an offset of
/// under a day.
#[verifier::external_body]
fn chrono_local(wall: &Timestamp) -> (local: LocalTime)
    ensures
        can_mean(*wall, local),
{
    let point = |time: chrono::DateTime<chrono::Local>| Timestamp {
        seconds: time.timestamp(),
        nanos: time.timestamp_subsec_nanos(),
    };
    match chrono::DateTime::from_timestamp(wall.seconds, wall.nanos).map(
        |time| chrono::Local.from_local_datetime(&time.naive_utc()),
    ) {
        Some(chrono::LocalResult::Single(time)) => LocalTime::Single(point(time)),
        Some(chrono::LocalResult::Ambiguous(first, second)) => {
            LocalTime::Ambiguous(point(first), point(second))
        },
        Some(chrono::LocalResult::None) | None => LocalTime::Missing,
    }
}

/// Asks `chrono::Local` how many seconds local clocks are ahead of UTC at a point in time; none
/// where `chrono` cannot represent that. The number depends on the time zone of the machine; it is
/// under a day.
#[verifier::external_body]
fn chrono_offset(timestamp: &Timestamp) -> (offset: Option<i32>)
    ensures
        match offset {
            Some(seconds) => timestamp.is_representable() && is_offset(seconds as int),
            None => !timestamp.is_representable(),
        },
{
    let time = chrono::DateTime::from_timestamp(timestamp.seconds, timestamp.nanos)?.naive_utc();
    Some(chrono::Local.offset_from_utc_datetime(&time).local_minus_utc())
}

/// Asks `chrono::Utc` for the current time. It depends on the clock of the machine; it is not before
/// 1970, in no leap second, and `chrono` can represent it.
#[verifier::external_body]
fn chrono_now() -> (now: Timestamp)
    ensures
        now.is_representable() && now.seconds >= 0 && now.nanos < 1000000000,
{
    let time = chrono::Utc::now();
    Timestamp { seconds: time.timestamp(), nanos: time.timestamp_subsec_nanos() }
}

/// The local date at a point in time where clocks are `offset` seconds ahead of UTC; none where
/// `chrono` cannot represent it.
pub open spec fn local_date(timestamp: Timestamp, offset: int) -> Option<Seq<char>> {
    if timestamp.is_representable() && in_calendar(timestamp.seconds + offset) {
        Some(day_text(timestamp.seconds + offset))
    } else {
        None
    }
}

/// The date at a point in time where clocks are so many seconds ahead of UTC.
pub fn date_at(timestamp: &Timestamp, offset: i32) -> (date: Option<String>)
    requires
        timestamp.is_representable(),
    ensures
        crate::text::optional_view(date) == local_date(*timestamp, offset as int),
{
    chrono_day(timestamp.seconds + offset as i64)
}

/// Reads a point in time in the format of RFC 3339.
pub fn parse_rfc3339(text: &str) -> (timestamp: Option<Timestamp>)
    ensures
        timestamp == rfc3339(text@),
{
    chrono_rfc3339(text)
}

/// Writes the point in time some days after another in the format of RFC 3339, with microseconds;
/// none where `chrono` cannot represent it.
pub fn shifted_text(timestamp: &Timestamp, days: i32) -> (text: Option<String>)
    ensures
        match text {
            Some(value) => can_shift(*timestamp, days as int) && value@ == micros_text(
                days_after(*timestamp, days as int),
            ),
            None => !can_shift(*timestamp, days as int),
        },
{
    match timestamp.seconds.checked_add(days as i64 * 86400) {
        Some(seconds) => chrono_micros(&Timestamp { seconds, nanos: timestamp.nanos }),
        None => None,
    }
}

/// Whether at least `limit` days lie between two points in time.
pub open spec fn is_older(from: Timestamp, to: Timestamp, limit: int) -> bool {
    match days_between(from, to) {
        Some(days) => days >= limit,
        None => false,
    }
}

/// Whether at least `limit` days lie between two points in time.
pub fn older(from: &Timestamp, to: &Timestamp, limit: i64) -> (result: bool)
    ensures
        result == is_older(*from, *to, limit as int),
{
    match chrono_days(from, to) {
        Some(days) => days >= limit,
        None => false,
    }
}

/// The current time.
pub fn current() -> (now: Now)
    ensures
        now.instant.is_representable() && now.instant.seconds >= 0,
        now.text@ == micros_text(now.instant),
{
    let instant: Timestamp = chrono_now();
    match chrono_micros(&instant) {
        Some(text) => Now { instant, text },
        None => Now { instant, text: String::new() },
    }
}

/// The current time as text, in the format of RFC 3339 with microseconds.
pub fn iso_now() -> (text: String)
    ensures
        exists|instant: Timestamp|
            instant.is_representable() && text@ == #[trigger] micros_text(instant),
{
    let now: Now = current();
    assert(now.text@ == micros_text(now.instant));
    now.text
}

/// The date some days after a point in time, where clocks are `offset` seconds ahead of UTC.
pub open spec fn date_from(instant: Timestamp, offset: int, days: int) -> Seq<char> {
    day_text(instant.seconds + offset + days * 86400)
}

/// Whether a date is read as its own midnight.
pub open spec fn reads_as_day(date: Seq<char>, seconds: int) -> bool {
    boundary_of(date) == Some(Boundary::Wall(day_start(seconds)))
}

/// Whether two dates are those of today and tomorrow at a point in time, where clocks are `offset`
/// seconds ahead of UTC. In the common years they are read as the midnights at which these days
/// begin.
pub open spec fn are_days_at(
    today: Seq<char>,
    tomorrow: Seq<char>,
    now: Timestamp,
    offset: int,
) -> bool {
    &&& in_calendar(now.seconds + offset) && in_calendar(now.seconds + offset + 86400)
    &&& today == date_from(now, offset, 0)
    &&& tomorrow == date_from(now, offset, 1)
    &&& in_common_years(now.seconds + offset) ==> reads_as_day(today, now.seconds + offset)
    &&& in_common_years(now.seconds + offset + 86400) ==> reads_as_day(
        tomorrow,
        now.seconds + offset + 86400,
    )
}

fn date_text(seconds: i64) -> (date: String)
    requires
        in_calendar(seconds as int),
    ensures
        date@ == day_text(seconds as int),
        in_common_years(seconds as int) ==> reads_as_day(date@, seconds as int),
{
    match chrono_day(seconds) {
        Some(date) => {
            proof {
                if in_common_years(seconds as int) {
                    day_form_is_ascii(date@);
                }
            }
            date
        },
        None => String::new(),
    }
}

/// The dates of today and tomorrow at a point in time, where clocks are so many seconds ahead of
/// UTC.
pub fn days_at(now: &Timestamp, offset: i32) -> (days: (String, String))
    requires
        in_calendar(now.seconds + offset),
        in_calendar(now.seconds + offset + 86400),
    ensures
        are_days_at(days.0@, days.1@, *now, offset as int),
{
    let wall: i64 = now.seconds + offset as i64;
    (date_text(wall), date_text(wall + 86400))
}

/// The last second of the calendar of `chrono` that has a day after it.
const LAST_TODAY: i64 = 8210266790399;

/// The local dates of today and tomorrow, by the clock and the time zone of the machine. A clock on
/// the last day of the calendar of `chrono`, which has no day after it, is taken as the day before.
pub fn local_days() -> (days: (String, String))
    ensures
        exists|now: Timestamp, offset: int|
            now.is_representable() && now.seconds >= 0 && is_offset(offset)
                && #[trigger] are_days_at(days.0@, days.1@, now, offset),
{
    let now: Timestamp = chrono_now();
    let offset: i32 = match chrono_offset(&now) {
        Some(offset) => offset,
        None => 0,
    };
    if now.seconds + offset as i64 <= LAST_TODAY {
        days_at(&now, offset)
    } else {
        let last = Timestamp { seconds: LAST_TODAY, nanos: 0 };
        days_at(&last, 0)
    }
}

/// How the start or the end of a range is written.
#[derive(Clone, Copy, Debug)]
pub enum Boundary {
    /// A point in time.
    Instant(Timestamp),
    /// A time of the local clock.
    Wall(Timestamp),
}

/// Says that the start or the end of a range cannot be read.
pub open spec fn not_iso() -> crate::error::ErrorView {
    failure("invalid_params"@, "start or end is not valid ISO 8601"@)
}

/// Says that the start or the end of a range is no local time.
pub open spec fn not_local() -> crate::error::ErrorView {
    failure("invalid_params"@, "start or end is not valid local time"@)
}

/// A text in the form of a date has as many bytes as characters.
proof fn day_form_is_ascii(text: Seq<char>)
    requires
        is_day_form(text),
    ensures
        vstd::utf8::encode_utf8(text).len() == 10,
{
    assert(vstd::utf8::is_ascii_chars(text)) by {
        assert forall|i: int| 0 <= i < text.len() implies '\0' <= #[trigger] text[i] <= '\u{7f}' by {
            assert(i == 4 || i == 7 || is_digit(text[i]));
        }
    }
    vstd::utf8::is_ascii_chars_encode_utf8(text);
}

/// How a text of a range boundary is read: ten bytes are a date, which starts at its local
/// midnight; anything else is a point in time in the format of RFC 3339, or a local date and time
/// with `T` or a space between them.
pub open spec fn boundary_of(value: Seq<char>) -> Option<Boundary> {
    if vstd::utf8::encode_utf8(value).len() == 10 {
        match midnight(value) {
            Some(wall) => Some(Boundary::Wall(wall)),
            None => None,
        }
    } else {
        match (rfc3339(value), wall_clock(value, "%Y-%m-%dT%H:%M:%S%.f"@), wall_clock(
            value,
            "%Y-%m-%d %H:%M:%S%.f"@,
        )) {
            (Some(instant), _, _) => Some(Boundary::Instant(instant)),
            (None, Some(wall), _) => Some(Boundary::Wall(wall)),
            (None, None, Some(wall)) => Some(Boundary::Wall(wall)),
            (None, None, None) => None,
        }
    }
}

/// Reads the text of a range boundary. One in the form of a date is the text of that date.
pub fn read_boundary(value: &str) -> (boundary: Result<Boundary>)
    ensures
        match boundary {
            Ok(boundary) => boundary_of(value@) == Some(boundary) && (boundary matches Boundary::Wall(
                wall,
            ) ==> is_day_form(value@) ==> day_text(wall.seconds as int) == value@),
            Err(error) => boundary_of(value@) is None && error@ == not_iso(),
        },
{
    let bytes: &[u8] = value.as_bytes();
    proof {
        if is_day_form(value@) {
            day_form_is_ascii(value@);
        }
    }
    if bytes.len() == 10 {
        return match chrono_midnight(value) {
            Some(wall) => Ok(Boundary::Wall(wall)),
            None => Err(CalendarError::new("invalid_params", "start or end is not valid ISO 8601")),
        };
    }
    if let Some(instant) = chrono_rfc3339(value) {
        return Ok(Boundary::Instant(instant));
    }
    if let Some(wall) = chrono_wall_clock(value, "%Y-%m-%dT%H:%M:%S%.f") {
        return Ok(Boundary::Wall(wall));
    }
    match chrono_wall_clock(value, "%Y-%m-%d %H:%M:%S%.f") {
        Some(wall) => Ok(Boundary::Wall(wall)),
        None => Err(CalendarError::new("invalid_params", "start or end is not valid ISO 8601")),
    }
}

/// The point in time that a local time means: the first one where there are two.
pub open spec fn local_choice(local: LocalTime) -> Option<Timestamp> {
    match local {
        LocalTime::Missing => None,
        LocalTime::Single(instant) => Some(instant),
        LocalTime::Ambiguous(first, _) => Some(first),
    }
}

/// Chooses the point in time that a local time means.
pub fn choose_local(local: LocalTime) -> (instant: Result<Timestamp>)
    ensures
        match instant {
            Ok(instant) => local_choice(local) == Some(instant),
            Err(error) => local_choice(local) is None && error@ == not_local(),
        },
{
    match local {
        LocalTime::Missing => Err(
            CalendarError::new("invalid_params", "start or end is not valid local time"),
        ),
        LocalTime::Single(instant) => Ok(instant),
        LocalTime::Ambiguous(first, _) => Ok(first),
    }
}

/// The point in time that a range boundary means where a wall-clock time in it means `local`.
pub open spec fn boundary_at(value: Seq<char>, local: LocalTime) -> std::result::Result<
    Timestamp,
    crate::error::ErrorView,
> {
    match boundary_of(value) {
        None => Err(not_iso()),
        Some(Boundary::Instant(instant)) => Ok(instant),
        Some(Boundary::Wall(_)) => match local_choice(local) {
            Some(instant) => Ok(instant),
            None => Err(not_local()),
        },
    }
}

/// Whether a wall-clock time in a range boundary can mean this in some zone, and a boundary in the
/// form of a date is the text of that date.
pub open spec fn boundary_means(value: Seq<char>, local: LocalTime) -> bool {
    boundary_of(value) matches Some(Boundary::Wall(wall)) ==> can_mean(wall, local) && (is_day_form(
        value,
    ) ==> day_text(wall.seconds as int) == value)
}

fn located(value: &str) -> (place: Result<(Boundary, Timestamp)>)
    ensures
        exists|local: LocalTime|
            boundary_means(value@, local) && match place {
                Ok((boundary, instant)) => boundary_of(value@) == Some(boundary)
                    && #[trigger] boundary_at(value@, local) == Ok::<_, crate::error::ErrorView>(
                    instant,
                ),
                Err(error) => boundary_at(value@, local) == Err::<Timestamp, _>(error@),
            },
{
    let boundary: Boundary = match read_boundary(value) {
        Ok(boundary) => boundary,
        Err(error) => {
            assert(boundary_at(value@, LocalTime::Missing) == Err::<Timestamp, _>(error@));
            return Err(error);
        },
    };
    match boundary {
        Boundary::Instant(instant) => {
            assert(boundary_at(value@, LocalTime::Missing) == Ok::<_, crate::error::ErrorView>(
                instant,
            ));
            Ok((boundary, instant))
        },
        Boundary::Wall(wall) => {
            let local: LocalTime = chrono_local(&wall);
            assert(boundary_means(value@, local));
            match choose_local(local) {
                Ok(instant) => {
                    assert(boundary_at(value@, local) == Ok::<_, crate::error::ErrorView>(instant));
                    Ok((boundary, instant))
                },
                Err(error) => {
                    assert(boundary_at(value@, local) == Err::<Timestamp, _>(error@));
                    Err(error)
                },
            }
        },
    }
}

/// Reads a range boundary as a point in time. Where the text names a local time, the time zone of
/// the machine decides which point that is, or that there is none.
pub fn parse_boundary(value: &str) -> (instant: Result<Timestamp>)
    ensures
        exists|local: LocalTime|
            boundary_means(value@, local) && match instant {
                Ok(instant) => #[trigger] boundary_at(value@, local) == Ok::<
                    _,
                    crate::error::ErrorView,
                >(instant),
                Err(error) => boundary_at(value@, local) == Err::<Timestamp, _>(error@),
            },
{
    match located(value) {
        Ok((_, instant)) => Ok(instant),
        Err(error) => Err(error),
    }
}

/// The range of an agenda request: its points in time, and their local dates.
#[derive(Debug)]
pub struct RangeBounds {
    pub start: Timestamp,
    pub end: Timestamp,
    pub start_date: String,
    pub end_date: String,
}

/// What a range holds.
pub struct RangeView {
    pub start: Timestamp,
    pub end: Timestamp,
    pub start_date: Seq<char>,
    pub end_date: Seq<char>,
}

impl View for RangeBounds {
    type V = RangeView;

    open spec fn view(&self) -> RangeView {
        RangeView {
            start: self.start,
            end: self.end,
            start_date: self.start_date@,
            end_date: self.end_date@,
        }
    }
}

/// Says that a range is empty.
pub open spec fn empty_range() -> crate::error::ErrorView {
    failure("invalid_params"@, "end must be later than start"@)
}

/// Puts a range together from its points in time and their local dates, where those exist.
pub fn bounds_between(
    start: Timestamp,
    end: Timestamp,
    start_date: Option<String>,
    end_date: Option<String>,
) -> (bounds: Result<RangeBounds>)
    ensures
        match bounds {
            Ok(bounds) => start.lt(end) && start_date is Some && end_date is Some && bounds@
                == (RangeView { start, end, start_date: start_date->0@, end_date: end_date->0@ }),
            Err(error) => if !start.lt(end) {
                error@ == empty_range()
            } else {
                (start_date is None || end_date is None) && error@ == not_local()
            },
        },
{
    if !start.earlier(&end) {
        return Err(CalendarError::new("invalid_params", "end must be later than start"));
    }
    match (start_date, end_date) {
        (Some(start_date), Some(end_date)) => Ok(RangeBounds { start, end, start_date, end_date }),
        _ => Err(CalendarError::new("invalid_params", "start or end is not valid local time")),
    }
}

/// The local date of a range boundary: the one that it is written with where it names a local time,
/// and where it names a point in time, the one there, with clocks `offset` seconds ahead of UTC.
pub open spec fn boundary_date(value: Seq<char>, instant: Timestamp, offset: int) -> Option<
    Seq<char>,
> {
    match boundary_of(value) {
        Some(Boundary::Wall(wall)) => if in_calendar(wall.seconds as int) {
            Some(day_text(wall.seconds as int))
        } else {
            None
        },
        _ => local_date(instant, offset),
    }
}

/// The range between two boundaries where the wall-clock times in them mean `from` and `to`, and
/// local clocks are so many seconds ahead of UTC at its points in time.
pub open spec fn range_at(
    start: Seq<char>,
    end: Seq<char>,
    from: LocalTime,
    to: LocalTime,
    start_offset: int,
    end_offset: int,
) -> std::result::Result<RangeView, crate::error::ErrorView> {
    match (boundary_at(start, from), boundary_at(end, to)) {
        (Err(error), _) => Err(error),
        (Ok(_), Err(error)) => Err(error),
        (Ok(first), Ok(last)) => if !first.lt(last) {
            Err(empty_range())
        } else {
            match (
                boundary_date(start, first, start_offset),
                boundary_date(end, last, end_offset),
            ) {
                (Some(start_date), Some(end_date)) => Ok(
                    RangeView { start: first, end: last, start_date, end_date },
                ),
                _ => Err(not_local()),
            }
        },
    }
}

/// Whether a range of an agenda request can have been read so, in some time zone.
pub open spec fn range_reading(
    start: Seq<char>,
    end: Seq<char>,
    read: std::result::Result<RangeView, crate::error::ErrorView>,
) -> bool {
    exists|from: LocalTime, to: LocalTime, start_offset: int, end_offset: int|
        {
            &&& boundary_means(start, from)
            &&& boundary_at(start, from) is Ok ==> boundary_means(end, to)
            &&& is_offset(start_offset) && is_offset(end_offset)
            &&& read == #[trigger] range_at(start, end, from, to, start_offset, end_offset)
        }
}

/// Whether a range boundary can have been read as this point in time, with this date, in some time
/// zone.
spec fn placed_so(
    value: Seq<char>,
    instant: Timestamp,
    date: Option<Seq<char>>,
    local: LocalTime,
    offset: int,
) -> bool {
    &&& boundary_means(value, local)
    &&& is_offset(offset)
    &&& boundary_at(value, local) == Ok::<_, crate::error::ErrorView>(instant)
    &&& date == boundary_date(value, instant, offset)
}

fn placed(value: &str) -> (place: Result<(Timestamp, Option<String>)>)
    ensures
        match place {
            Ok(found) => exists|local: LocalTime, offset: int|
                #[trigger] placed_so(
                    value@,
                    found.0,
                    crate::text::optional_view(found.1),
                    local,
                    offset,
                ),
            Err(error) => exists|local: LocalTime|
                boundary_means(value@, local) && #[trigger] boundary_at(value@, local) == Err::<
                    Timestamp,
                    _,
                >(error@),
        },
{
    let (boundary, instant): (Boundary, Timestamp) = match located(value) {
        Ok(place) => place,
        Err(error) => return Err(error),
    };
    let ghost local = choose|local: LocalTime|
        boundary_means(value@, local) && #[trigger] boundary_at(value@, local) == Ok::<
            _,
            crate::error::ErrorView,
        >(instant);
    let mut offset: i32 = 0;
    let date: Option<String> = match boundary {
        Boundary::Wall(wall) => chrono_day(wall.seconds),
        Boundary::Instant(_) => match chrono_offset(&instant) {
            Some(ahead) => {
                offset = ahead;
                date_at(&instant, ahead)
            },
            None => None,
        },
    };
    let found: (Timestamp, Option<String>) = (instant, date);
    assert(placed_so(
        value@,
        found.0,
        crate::text::optional_view(found.1),
        local,
        offset as int,
    ));
    Ok(found)
}

/// Reads the range of an agenda request. Which points in time its local times are, and which dates
/// its points in time have, the time zone of the machine decides; a boundary that is a date has that
/// date.
pub fn range_bounds(start: &str, end: &str) -> (bounds: Result<RangeBounds>)
    ensures
        match bounds {
            Ok(bounds) => range_reading(start@, end@, Ok(bounds@)) && (is_day_form(start@)
                ==> bounds@.start_date == start@) && (is_day_form(end@) ==> bounds@.end_date
                == end@),
            Err(error) => range_reading(start@, end@, Err(error@)),
        },
{
    let (from, start_date): (Timestamp, Option<String>) = match placed(start) {
        Ok(place) => place,
        Err(error) => {
            let ghost local = choose|local: LocalTime|
                boundary_means(start@, local) && #[trigger] boundary_at(start@, local) == Err::<
                    Timestamp,
                    _,
                >(error@);
            let ghost unread = LocalTime::Missing;
            assert(range_at(start@, end@, local, unread, 0, 0) == Err::<RangeView, _>(error@));
            return Err(error);
        },
    };
    let ghost first_date = crate::text::optional_view(start_date);
    let ghost (at_start, start_offset) = choose|local: LocalTime, offset: int|
        #[trigger] placed_so(start@, from, first_date, local, offset);
    let (to, end_date): (Timestamp, Option<String>) = match placed(end) {
        Ok(place) => place,
        Err(error) => {
            let ghost local = choose|local: LocalTime|
                boundary_means(end@, local) && #[trigger] boundary_at(end@, local) == Err::<
                    Timestamp,
                    _,
                >(error@);
            assert(range_at(start@, end@, at_start, local, start_offset, 0) == Err::<
                RangeView,
                _,
            >(error@));
            return Err(error);
        },
    };
    let ghost last_date = crate::text::optional_view(end_date);
    let ghost (at_end, end_offset) = choose|local: LocalTime, offset: int|
        #[trigger] placed_so(end@, to, last_date, local, offset);
    let bounds: Result<RangeBounds> = bounds_between(from, to, start_date, end_date);
    proof {
        let read = range_at(start@, end@, at_start, at_end, start_offset, end_offset);
        assert(read is Ok == bounds is Ok);
        if bounds is Ok {
            assert(range_reading(start@, end@, Ok(bounds->Ok_0@)));
            dates_are_read_as_written(start@, end@, bounds->Ok_0@);
        }
    }
    bounds
}

/// The local dates of a range are those that its boundaries are written with, where they name local
/// times: a boundary that is a date has that date, whatever the time zone.
pub proof fn dates_are_read_as_written(start: Seq<char>, end: Seq<char>, bounds: RangeView)
    requires
        range_reading(start, end, Ok(bounds)),
    ensures
        boundary_of(start) matches Some(Boundary::Wall(wall)) ==> bounds.start_date == day_text(
            wall.seconds as int,
        ),
        boundary_of(end) matches Some(Boundary::Wall(wall)) ==> bounds.end_date == day_text(
            wall.seconds as int,
        ),
        is_day_form(start) ==> bounds.start_date == start,
        is_day_form(end) ==> bounds.end_date == end,
{
    if is_day_form(start) {
        day_form_is_ascii(start);
    }
    if is_day_form(end) {
        day_form_is_ascii(end);
    }
}

/// A range between two points in time of the common years is read as written, whatever the time
/// zone: it is refused only where it does not end later than it starts. Its dates are those of
/// wall-clock times within a day of its boundaries.
pub proof fn instants_are_read_everywhere(
    start: Seq<char>,
    end: Seq<char>,
    from: Timestamp,
    to: Timestamp,
    read: std::result::Result<RangeView, crate::error::ErrorView>,
)
    requires
        boundary_of(start) == Some(Boundary::Instant(from)),
        boundary_of(end) == Some(Boundary::Instant(to)),
        from.is_representable() && in_common_years(from.seconds as int),
        to.is_representable() && in_common_years(to.seconds as int),
        range_reading(start, end, read),
    ensures
        match read {
            Ok(bounds) => from.lt(to) && bounds.start == from && bounds.end == to && (exists|
                offset: int,
            |
                is_offset(offset) && bounds.start_date == #[trigger] day_text(
                    from.seconds + offset,
                )) && (exists|offset: int|
                is_offset(offset) && bounds.end_date == #[trigger] day_text(to.seconds + offset)),
            Err(error) => !from.lt(to) && error == empty_range(),
        },
{
    let (first, second, start_offset, end_offset) = choose|
        first: LocalTime,
        second: LocalTime,
        start_offset: int,
        end_offset: int,
    |
        {
            &&& boundary_means(start, first)
            &&& boundary_at(start, first) is Ok ==> boundary_means(end, second)
            &&& is_offset(start_offset) && is_offset(end_offset)
            &&& read == #[trigger] range_at(start, end, first, second, start_offset, end_offset)
        };
    assert(local_date(from, start_offset) == Some(day_text(from.seconds + start_offset)));
    assert(local_date(to, end_offset) == Some(day_text(to.seconds + end_offset)));
}

/// A range between two local times has the dates that they are written with, and starts and ends
/// within a day of where a clock set to UTC shows them, whatever the time zone; where they are two
/// days apart or more, it is refused only where one of them does not exist there.
pub proof fn local_times_are_read_nearby(
    start: Seq<char>,
    end: Seq<char>,
    start_wall: Timestamp,
    end_wall: Timestamp,
    read: std::result::Result<RangeView, crate::error::ErrorView>,
)
    requires
        boundary_of(start) == Some(Boundary::Wall(start_wall)),
        boundary_of(end) == Some(Boundary::Wall(end_wall)),
        range_reading(start, end, read),
    ensures
        match read {
            Ok(bounds) => {
                &&& bounds.start.lt(bounds.end)
                &&& shown_near(start_wall, bounds.start)
                &&& shown_near(end_wall, bounds.end)
                &&& bounds.start_date == day_text(start_wall.seconds as int)
                &&& bounds.end_date == day_text(end_wall.seconds as int)
            },
            Err(error) => error == not_local() || (error == empty_range() && end_wall.seconds
                - start_wall.seconds < 172800),
        },
{
}

} // verus!
