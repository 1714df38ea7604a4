//! Calendar boundaries and periods in a time zone.
use crate::arith;
use crate::text;
use vstd::prelude::*;
use vstd::string::StringExecFns;

verus! {

/// The first millisecond that has a date.
pub const FIRST_INSTANT_MS: i64 = -8_334_601_228_800_000;

/// The last millisecond that has a date.
pub const LAST_INSTANT_MS: i64 = 8_210_266_876_799_999;

/// The last day, counted from the first of January of the year one, which is day one.
pub const LAST_DAY: i32 = 95_745_399;

/// The first day, in the same count.
pub const FIRST_DAY: i32 = -95_746_129;

/// A millisecond that has a date.
pub open spec fn is_instant(at_ms: i64) -> bool {
    FIRST_INSTANT_MS <= at_ms <= LAST_INSTANT_MS
}

/// A millisecond that has a date in every time zone: it lies a day within the limits.
pub open spec fn is_local_everywhere(at_ms: i64) -> bool {
    FIRST_INSTANT_MS + 86_400_000 <= at_ms <= LAST_INSTANT_MS - 86_400_000
}

/// Whether a name is one of `chrono_tz`'s time zones.
pub uninterp spec fn zone_known(name: Seq<char>) -> bool;

/// Whether `chrono_tz::Tz` can be parsed from a name. That the name `UTC` can be is claimed too.
#[verifier::external_body]
fn is_zone(name: &str) -> (known: bool)
    ensures
        known == zone_known(name@),
        name@ == "UTC"@ ==> known,
{
    name.parse::<chrono_tz::Tz>().is_ok()
}

/// A time zone by its name.
#[derive(Debug)]
pub struct Zone {
    name: String,
}

impl View for Zone {
    type V = Seq<char>;

    closed spec fn view(&self) -> Seq<char> {
        self.name@
    }
}

impl Zone {
    /// The name is one of the known time zones.
    #[verifier::type_invariant]
    spec fn is_known(self) -> bool {
        zone_known(self.name@)
    }

    /// The time zone of a name.
    pub fn parse(name: &str) -> (zone: Option<Zone>)
        ensures
            match zone {
                Some(z) => zone_known(name@) && z@ == name@,
                None => !zone_known(name@),
            },
    {
        if is_zone(name) {
            Some(Zone { name: name.to_owned() })
        } else {
            None
        }
    }

    /// Universal time.
    pub fn utc() -> (zone: Zone)
        ensures
            zone@ == "UTC"@,
    {
        let known = is_zone("UTC");
        assert(known);
        Zone { name: "UTC".to_owned() }
    }

    /// The name.
    pub fn name(&self) -> (name: &str)
        ensures
            name@ == self@,
    {
        self.name.as_str()
    }
}

/// Why a date could not be found.
#[derive(Debug)]
pub enum CalendarError {
    /// The name is none of a time zone.
    InvalidZone,
    /// There is no later date.
    DateOverflow,
    /// No minute of the date exists in the time zone.
    NoSuchDate(String),
    /// None of the next days exists in the time zone.
    NoNextDay(String),
}

impl CalendarError {
    /// The words in which an error is reported.
    pub open spec fn words(self) -> Seq<char> {
        match self {
            CalendarError::InvalidZone => "invalid time zone"@,
            CalendarError::DateOverflow => "date overflow"@,
            CalendarError::NoSuchDate(zone) => "calendar date does not exist in "@ + zone@,
            CalendarError::NoNextDay(zone) => "cannot determine the next calendar day in "@ + zone@,
        }
    }

    /// The words in which an error is reported.
    pub fn message(&self) -> (words: String)
        ensures
            words@ == self.words(),
    {
        match self {
            CalendarError::InvalidZone => "invalid time zone".to_owned(),
            CalendarError::DateOverflow => "date overflow".to_owned(),
            CalendarError::NoSuchDate(zone) =>
                text::joined("calendar date does not exist in ", zone.as_str()),
            CalendarError::NoNextDay(zone) =>
                text::joined("cannot determine the next calendar day in ", zone.as_str()),
        }
    }
}

/// The time zone that was asked for, or else that of the system, or else universal time.
///
/// `system` is the name that the environment gives.
pub fn timezone(explicit: Option<&str>, system: Option<&str>) -> (r: Result<Zone, CalendarError>)
    ensures
        match explicit {
            Some(name) => if zone_known(name@) {
                r matches Ok(zone) && zone@ == name@
            } else {
                r matches Err(CalendarError::InvalidZone)
            },
            None => r matches Ok(zone) && zone@ == match system {
                Some(name) => if zone_known(name@) {
                    name@
                } else {
                    "UTC"@
                },
                None => "UTC"@,
            },
        },
{
    match explicit {
        Some(name) => match Zone::parse(name) {
            Some(zone) => Ok(zone),
            None => Err(CalendarError::InvalidZone),
        },
        None => match system {
            Some(name) => match Zone::parse(name) {
                Some(zone) => Ok(zone),
                None => Ok(Zone::utc()),
            },
            None => Ok(Zone::utc()),
        },
    }
}

/// The day, counted as by `chrono::Datelike::num_days_from_ce`, on which a millisecond falls in a
/// time zone.
pub uninterp spec fn local_day(at_ms: i64, zone: Seq<char>) -> i32;

/// The day of a millisecond in a time zone, from `chrono::DateTime::date_naive`.
///
/// It lies between the first and the last day that have a date.
#[verifier::external_body]
fn day_of(at_ms: i64, zone: &str) -> (day: i32)
    requires
        is_local_everywhere(at_ms),
        zone_known(zone@),
    ensures
        day == local_day(at_ms, zone@),
        FIRST_DAY <= day <= LAST_DAY,
{
    let instant = chrono::DateTime::from_timestamp_millis(at_ms).unwrap();
    let zone: chrono_tz::Tz = zone.parse().unwrap();
    chrono::Datelike::num_days_from_ce(&instant.with_timezone(&zone).date_naive())
}

/// The earliest millisecond at which a day's clock shows an hour and a minute in a time zone;
/// none where the clock skips them.
pub uninterp spec fn earliest_at(day: i32, hour: u32, minute: u32, zone: Seq<char>) -> Option<i64>;

/// The earliest millisecond of an hour and minute of a day in a time zone, from
/// `chrono::NaiveDateTime::and_local_timezone`.
#[verifier::external_body]
fn earliest(day: i32, hour: u32, minute: u32, zone: &str) -> (at_ms: Option<i64>)
    requires
        FIRST_DAY <= day <= LAST_DAY,
        hour < 24,
        minute < 60,
        zone_known(zone@),
    ensures
        at_ms == earliest_at(day, hour, minute, zone@),
{
    let date = chrono::NaiveDate::from_num_days_from_ce_opt(day).unwrap();
    let zone: chrono_tz::Tz = zone.parse().unwrap();
    let local = date.and_hms_opt(hour, minute, 0).unwrap().and_local_timezone(zone);
    local.earliest().map(|at| at.timestamp_millis())
}

/// The first existing minute of a day from `minute` on, in milliseconds.
pub open spec fn first_minute(day: i32, minute: nat, zone: Seq<char>) -> Option<i64>
    decreases 1440 - minute,
{
    if minute >= 1440 {
        None
    } else {
        match earliest_at(day, (minute / 60) as u32, (minute % 60) as u32, zone) {
            Some(at_ms) => Some(at_ms),
            None => first_minute(day, minute + 1, zone),
        }
    }
}

/// When a day begins: some zones advance their clocks at midnight, so it is the first minute
/// that exists.
pub fn start_of_day(day: i32, zone: &Zone) -> (r: Result<i64, CalendarError>)
    requires
        FIRST_DAY <= day <= LAST_DAY,
    ensures
        match first_minute(day, 0, zone@) {
            Some(at_ms) => r matches Ok(start) && start == at_ms,
            None => r matches Err(CalendarError::NoSuchDate(name)) && name@ == zone@,
        },
{
    proof {
        use_type_invariant(zone);
    }
    let mut minute: u32 = 0;
    while minute < 1440
        invariant
            minute <= 1440,
            FIRST_DAY <= day <= LAST_DAY,
            zone_known(zone@),
            first_minute(day, 0, zone@) == first_minute(day, minute as nat, zone@),
        decreases 1440 - minute,
    {
        match earliest(day, minute / 60, minute % 60, zone.name()) {
            Some(at_ms) => {
                return Ok(at_ms);
            },
            None => {},
        }
        minute = minute + 1;
    }
    Err(CalendarError::NoSuchDate(zone.name().to_owned()))
}

/// What is known of the days that follow.
pub enum Following {
    /// The first of them that exists begins here.
    Begins(i64),
    /// There is no later date.
    Overflow,
    /// None of them exists.
    Missing,
}

/// The first of up to `tries` days from `day` on that exists.
pub open spec fn next_start(day: int, tries: nat, zone: Seq<char>) -> Following
    decreases tries,
{
    if day > LAST_DAY {
        Following::Overflow
    } else if tries == 0 {
        Following::Missing
    } else {
        match first_minute(day as i32, 0, zone) {
            Some(at_ms) => Following::Begins(at_ms),
            None => next_start(day + 1, (tries - 1) as nat, zone),
        }
    }
}

/// When the day of a millisecond begins and ends in a time zone. The end is the beginning of the
/// next day that exists, of the three that follow: a zone can skip an entire date.
pub fn today(now_ms: i64, zone: &Zone) -> (r: Result<(i64, i64), CalendarError>)
    requires
        is_local_everywhere(now_ms),
    ensures
        match next_start(local_day(now_ms, zone@) + 1, 3, zone@) {
            Following::Overflow => r matches Err(CalendarError::DateOverflow),
            Following::Missing => r matches Err(CalendarError::NoNextDay(name)) && name@ == zone@,
            Following::Begins(end) => match first_minute(local_day(now_ms, zone@), 0, zone@) {
                Some(start) => r matches Ok(bounds) && bounds == (start, end),
                None => r matches Err(CalendarError::NoSuchDate(name)) && name@ == zone@,
            },
        },
{
    proof {
        use_type_invariant(zone);
    }
    let day: i32 = day_of(now_ms, zone.name());
    if day >= LAST_DAY {
        return Err(CalendarError::DateOverflow);
    }
    let mut next: i32 = day + 1;
    let mut tries: u32 = 3;
    while tries > 0
        invariant
            FIRST_DAY <= day < next <= LAST_DAY,
            tries <= 3,
            day == local_day(now_ms, zone@),
            next_start(day + 1, 3, zone@) == next_start(next as int, tries as nat, zone@),
        decreases tries,
    {
        match start_of_day(next, zone) {
            Ok(end) => {
                return match start_of_day(day, zone) {
                    Ok(start) => Ok((start, end)),
                    Err(e) => Err(e),
                };
            },
            Err(_) => {},
        }
        if next >= LAST_DAY {
            assert(next_start(LAST_DAY + 1, (tries - 1) as nat, zone@) is Overflow);
            return Err(CalendarError::DateOverflow);
        }
        next = next + 1;
        tries = tries - 1;
    }
    Err(CalendarError::NoNextDay(zone.name().to_owned()))
}

/// The date of a millisecond in a time zone, as text.
pub uninterp spec fn local_date(at_ms: i64, zone: Seq<char>) -> Seq<char>;

/// The date of a millisecond in a time zone, from `chrono::DateTime::date_naive`, as text.
#[verifier::external_body]
fn date_of(at_ms: i64, zone: &str) -> (value: String)
    requires
        is_local_everywhere(at_ms),
        zone_known(zone@),
    ensures
        value@ == local_date(at_ms, zone@),
{
    let instant = chrono::DateTime::from_timestamp_millis(at_ms).unwrap();
    let zone: chrono_tz::Tz = zone.parse().unwrap();
    instant.with_timezone(&zone).date_naive().to_string()
}

/// The hour of a millisecond in a time zone.
pub uninterp spec fn local_hour(at_ms: i64, zone: Seq<char>) -> u32;

/// The hour of a millisecond in a time zone, from `chrono::Timelike::hour`: 0 to 23.
#[verifier::external_body]
fn hour_of(at_ms: i64, zone: &str) -> (value: u32)
    requires
        is_local_everywhere(at_ms),
        zone_known(zone@),
    ensures
        value == local_hour(at_ms, zone@),
        value < 24,
{
    let instant = chrono::DateTime::from_timestamp_millis(at_ms).unwrap();
    let zone: chrono_tz::Tz = zone.parse().unwrap();
    chrono::Timelike::hour(&instant.with_timezone(&zone))
}

/// How far a time zone is from universal time at a millisecond, as text.
pub uninterp spec fn local_offset(at_ms: i64, zone: Seq<char>) -> Seq<char>;

/// How far a time zone is from universal time at a millisecond, from `chrono::DateTime::format`
/// with `%:z`.
#[verifier::external_body]
fn offset_of(at_ms: i64, zone: &str) -> (value: String)
    requires
        is_local_everywhere(at_ms),
        zone_known(zone@),
    ensures
        value@ == local_offset(at_ms, zone@),
{
    let instant = chrono::DateTime::from_timestamp_millis(at_ms).unwrap();
    let zone: chrono_tz::Tz = zone.parse().unwrap();
    instant.with_timezone(&zone).format("%:z").to_string()
}

/// The week of a millisecond in a time zone: its year and its number in that year.
pub uninterp spec fn local_week(at_ms: i64, zone: Seq<char>) -> (i32, u32);

/// The week of a millisecond in a time zone, from `chrono::Datelike::iso_week`: its number is 1 to
/// 53.
#[verifier::external_body]
fn week_of(at_ms: i64, zone: &str) -> (value: (i32, u32))
    requires
        is_local_everywhere(at_ms),
        zone_known(zone@),
    ensures
        value == local_week(at_ms, zone@),
        1 <= value.1 <= 53,
{
    let instant = chrono::DateTime::from_timestamp_millis(at_ms).unwrap();
    let zone: chrono_tz::Tz = zone.parse().unwrap();
    let week = chrono::Datelike::iso_week(&instant.with_timezone(&zone));
    (week.year(), week.week())
}

/// The year of a millisecond in a time zone.
pub uninterp spec fn local_year(at_ms: i64, zone: Seq<char>) -> i32;

/// The year of a millisecond in a time zone, from `chrono::Datelike::year`.
#[verifier::external_body]
fn year_of(at_ms: i64, zone: &str) -> (value: i32)
    requires
        is_local_everywhere(at_ms),
        zone_known(zone@),
    ensures
        value == local_year(at_ms, zone@),
{
    let instant = chrono::DateTime::from_timestamp_millis(at_ms).unwrap();
    let zone: chrono_tz::Tz = zone.parse().unwrap();
    chrono::Datelike::year(&instant.with_timezone(&zone))
}

/// The month of a millisecond in a time zone.
pub uninterp spec fn local_month(at_ms: i64, zone: Seq<char>) -> u32;

/// The month of a millisecond in a time zone, from `chrono::Datelike::month`: 1 to 12.
#[verifier::external_body]
fn month_of(at_ms: i64, zone: &str) -> (value: u32)
    requires
        is_local_everywhere(at_ms),
        zone_known(zone@),
    ensures
        value == local_month(at_ms, zone@),
        1 <= value <= 12,
{
    let instant = chrono::DateTime::from_timestamp_millis(at_ms).unwrap();
    let zone: chrono_tz::Tz = zone.parse().unwrap();
    chrono::Datelike::month(&instant.with_timezone(&zone))
}

/// What a clock and a calendar show.
#[derive(Debug)]
pub struct LocalTime {
    pub date: String,
    pub hour: u32,
    /// How far the clock is from universal time.
    pub offset: String,
    pub week_year: i32,
    pub week: u32,
    pub year: i32,
    pub month: u32,
}

/// What a clock and a calendar show, with texts as characters.
pub struct LocalTimeModel {
    pub date: Seq<char>,
    pub hour: u32,
    pub offset: Seq<char>,
    pub week_year: i32,
    pub week: u32,
    pub year: i32,
    pub month: u32,
}

impl View for LocalTime {
    type V = LocalTimeModel;

    open spec fn view(&self) -> LocalTimeModel {
        LocalTimeModel {
            date: self.date@,
            hour: self.hour,
            offset: self.offset@,
            week_year: self.week_year,
            week: self.week,
            year: self.year,
            month: self.month,
        }
    }
}

/// What a clock and a calendar show at a millisecond in a time zone.
pub open spec fn shown_at(at_ms: i64, zone: Seq<char>) -> LocalTimeModel {
    LocalTimeModel {
        date: local_date(at_ms, zone),
        hour: local_hour(at_ms, zone),
        offset: local_offset(at_ms, zone),
        week_year: local_week(at_ms, zone).0,
        week: local_week(at_ms, zone).1,
        year: local_year(at_ms, zone),
        month: local_month(at_ms, zone),
    }
}

/// What a clock and a calendar show at a millisecond in a time zone; nothing where the
/// millisecond has no date.
pub fn local_time(at_ms: i64, zone: &Zone) -> (local: Option<LocalTime>)
    requires
        is_instant(at_ms) ==> is_local_everywhere(at_ms),
    ensures
        match local {
            Some(t) => is_instant(at_ms) && t@ == shown_at(at_ms, zone@),
            None => !is_instant(at_ms),
        },
{
    proof {
        use_type_invariant(zone);
    }
    if at_ms < FIRST_INSTANT_MS || at_ms > LAST_INSTANT_MS {
        return None;
    }
    let (week_year, week) = week_of(at_ms, zone.name());
    Some(
        LocalTime {
            date: date_of(at_ms, zone.name()),
            hour: hour_of(at_ms, zone.name()),
            offset: offset_of(at_ms, zone.name()),
            week_year,
            week,
            year: year_of(at_ms, zone.name()),
            month: month_of(at_ms, zone.name()),
        },
    )
}

/// The periods by which energy is summed up.
#[derive(Debug, Clone, Copy, PartialEq, Eq, Structural)]
pub enum Period {
    Hour,
    Day,
    Week,
    Month,
    Year,
}

impl Period {
    /// The name of the period.
    pub open spec fn title(self) -> Seq<char> {
        match self {
            Period::Hour => "hour"@,
            Period::Day => "day"@,
            Period::Week => "week"@,
            Period::Month => "month"@,
            Period::Year => "year"@,
        }
    }

    /// The name of the period.
    pub fn name(self) -> (name: &'static str)
        ensures
            name@ == self.title(),
    {
        match self {
            Period::Hour => "hour",
            Period::Day => "day",
            Period::Week => "week",
            Period::Month => "month",
            Period::Year => "year",
        }
    }

    /// The period of a name.
    pub fn named(name: &str) -> (period: Option<Period>)
        ensures
            match period {
                Some(p) => p.title() == name@,
                None => forall|p: Period| #[trigger] p.title() != name@,
            },
    {
        let wanted = name.to_owned();
        if wanted == "hour".to_owned() {
            Some(Period::Hour)
        } else if wanted == "day".to_owned() {
            Some(Period::Day)
        } else if wanted == "week".to_owned() {
            Some(Period::Week)
        } else if wanted == "month".to_owned() {
            Some(Period::Month)
        } else if wanted == "year".to_owned() {
            Some(Period::Year)
        } else {
            None
        }
    }

    /// The key of the period in which a local time lies.
    pub open spec fn key(self, t: LocalTimeModel) -> Seq<char> {
        match self {
            Period::Hour => t.date + "T"@ + text::padded(t.hour as int, 2) + ":00"@ + t.offset,
            Period::Day => t.date,
            Period::Week => text::signed(t.week_year as int) + "-W"@ + text::padded(
                t.week as int,
                2,
            ),
            Period::Month => text::signed(t.year as int) + "-"@ + text::padded(t.month as int, 2),
            Period::Year => text::signed(t.year as int),
        }
    }

    /// The key of the period in which a local time lies.
    pub fn key_of(self, t: &LocalTime) -> (key: String)
        ensures
            key@ == self.key(t@),
    {
        match self {
            Period::Hour => {
                let mut key = text::joined(t.date.as_str(), "T");
                text::push_padded(&mut key, t.hour as i128, 2);
                key.append(":00");
                key.append(t.offset.as_str());
                key
            },
            Period::Day => t.date.clone(),
            Period::Week => {
                let mut key = String::new();
                text::push_signed(&mut key, t.week_year as i128);
                key.append("-W");
                text::push_padded(&mut key, t.week as i128, 2);
                assert(key@ =~= self.key(t@));
                key
            },
            Period::Month => {
                let mut key = String::new();
                text::push_signed(&mut key, t.year as i128);
                key.append("-");
                text::push_padded(&mut key, t.month as i128, 2);
                assert(key@ =~= self.key(t@));
                key
            },
            Period::Year => {
                let mut key = String::new();
                text::push_signed(&mut key, t.year as i128);
                assert(key@ =~= self.key(t@));
                key
            },
        }
    }
}

/// An hour that the clock shows twice is two periods: the same date and hour at different
/// distances from universal time have different keys.
pub proof fn repeated_hours_stay_apart(a: LocalTimeModel, b: LocalTimeModel)
    requires
        a.date == b.date,
        a.hour == b.hour,
        a.offset != b.offset,
    ensures
        Period::Hour.key(a) != Period::Hour.key(b),
{
    let head = a.date + "T"@ + text::padded(a.hour as int, 2) + ":00"@;
    if Period::Hour.key(a) == Period::Hour.key(b) {
        assert((head + a.offset).skip(head.len() as int) =~= a.offset);
        assert((head + b.offset).skip(head.len() as int) =~= b.offset);
    }
}

/// What `chrono` makes of a text as RFC 3339: the millisecond that it denotes, or the words in which
/// it is refused.
pub uninterp spec fn rfc3339_read(words: Seq<char>) -> Result<i64, Seq<char>>;

/// The millisecond that a text denotes, from `chrono::DateTime::parse_from_rfc3339`, or the text of
/// its `chrono::ParseError`.
#[verifier::external_body]
fn read_rfc3339(words: &str) -> (r: Result<i64, String>)
    ensures
        match r {
            Ok(at_ms) => rfc3339_read(words@) == Ok::<i64, Seq<char>>(at_ms),
            Err(refusal) => rfc3339_read(words@) == Err::<i64, Seq<char>>(refusal@),
        },
{
    match chrono::DateTime::parse_from_rfc3339(words) {
        Ok(at) => Ok(at.timestamp_millis()),
        Err(e) => Err(e.to_string()),
    }
}

/// The text of a millisecond in universal time as `chrono` writes RFC 3339.
pub uninterp spec fn rfc3339_text(at_ms: i64) -> Seq<char>;

/// The text of a millisecond in universal time, from `chrono::DateTime::to_rfc3339`.
#[verifier::external_body]
fn write_rfc3339(at_ms: i64) -> (words: String)
    requires
        is_instant(at_ms),
    ensures
        words@ == rfc3339_text(at_ms),
{
    chrono::DateTime::from_timestamp_millis(at_ms).unwrap().to_rfc3339()
}

/// The text of a millisecond in a time zone as `chrono` writes RFC 3339.
pub uninterp spec fn zoned_text(at_ms: i64, zone: Seq<char>) -> Seq<char>;

/// The text of a millisecond in a time zone, from `chrono::DateTime::with_timezone` and
/// `chrono::DateTime::to_rfc3339`.
#[verifier::external_body]
fn write_zoned(at_ms: i64, zone: &str) -> (words: String)
    requires
        is_instant(at_ms),
        zone_known(zone@),
    ensures
        words@ == zoned_text(at_ms, zone@),
{
    let zone: chrono_tz::Tz = zone.parse().unwrap();
    chrono::DateTime::from_timestamp_millis(at_ms).unwrap().with_timezone(&zone).to_rfc3339()
}

/// Why a text is no time, with the words in which it was refused as a date and time.
#[derive(Debug, PartialEq, Eq)]
pub enum TimeError {
    /// It is neither a number of milliseconds nor a date and time.
    Timestamp(String),
    /// It is no date and time.
    Date(String),
}

impl TimeError {
    /// The words in which an error is reported.
    pub open spec fn words(self) -> Seq<char> {
        match self {
            TimeError::Timestamp(_) => "use RFC3339 with a timezone offset, or Unix milliseconds"@,
            TimeError::Date(refusal) => refusal@,
        }
    }

    /// The words in which the text was refused as a date and time.
    pub open spec fn refusal(self) -> Seq<char> {
        match self {
            TimeError::Timestamp(refusal) => refusal@,
            TimeError::Date(refusal) => refusal@,
        }
    }

    /// The words in which an error is reported.
    pub fn message(&self) -> (words: String)
        ensures
            words@ == self.words(),
    {
        match self {
            TimeError::Timestamp(_) =>
                "use RFC3339 with a timezone offset, or Unix milliseconds".to_owned(),
            TimeError::Date(refusal) => refusal.clone(),
        }
    }

    /// The words in which the text was refused as a date and time: the cause of an error.
    pub fn cause(&self) -> (words: String)
        ensures
            words@ == self.refusal(),
    {
        match self {
            TimeError::Timestamp(refusal) => refusal.clone(),
            TimeError::Date(refusal) => refusal.clone(),
        }
    }
}

/// Reads a time: milliseconds since 1970, or a date and time with its distance from universal time.
pub fn timestamp(words: &str) -> (r: Result<i64, TimeError>)
    ensures
        match text::whole_value(words@) {
            Some(at_ms) => r matches Ok(at) && at == at_ms,
            None => match rfc3339_read(words@) {
                Ok(at_ms) => r matches Ok(at) && at == at_ms,
                Err(refusal) => r matches Err(TimeError::Timestamp(told)) && told@ == refusal,
            },
        },
{
    match text::parse_i64(words) {
        Some(at_ms) => Ok(at_ms),
        None => match read_rfc3339(words) {
            Ok(at_ms) => Ok(at_ms),
            Err(refusal) => Err(TimeError::Timestamp(refusal)),
        },
    }
}

/// Reads a date and time with its distance from universal time.
pub fn date(words: &str) -> (r: Result<i64, TimeError>)
    ensures
        match rfc3339_read(words@) {
            Ok(at_ms) => r matches Ok(at) && at == at_ms,
            Err(refusal) => r matches Err(TimeError::Date(told)) && told@ == refusal,
        },
{
    match read_rfc3339(words) {
        Ok(at_ms) => Ok(at_ms),
        Err(refusal) => Err(TimeError::Date(refusal)),
    }
}

/// A millisecond as text; nothing where it has no date.
pub open spec fn instant_text(at_ms: i64) -> Seq<char> {
    if is_instant(at_ms) {
        rfc3339_text(at_ms)
    } else {
        Seq::empty()
    }
}

/// Writes a millisecond as text; nothing where it has no date.
pub fn write_instant(at_ms: i64) -> (words: String)
    ensures
        words@ == instant_text(at_ms),
{
    if at_ms < FIRST_INSTANT_MS || at_ms > LAST_INSTANT_MS {
        let words = String::new();
        assert(words@ =~= Seq::<char>::empty());
        words
    } else {
        write_rfc3339(at_ms)
    }
}

/// Writes a millisecond as the clocks of a time zone show it; nothing where it has no date.
pub fn local_text(at_ms: i64, zone: &Zone) -> (words: Option<String>)
    ensures
        match words {
            Some(w) => is_instant(at_ms) && w@ == zoned_text(at_ms, zone@),
            None => !is_instant(at_ms),
        },
{
    proof {
        use_type_invariant(zone);
    }
    if at_ms < FIRST_INSTANT_MS || at_ms > LAST_INSTANT_MS {
        None
    } else {
        Some(write_zoned(at_ms, zone.name()))
    }
}

/// The end of the minute that goes on, up to which energy is asked for.
pub open spec fn minute_end(now_ms: int) -> int {
    arith::quotient(now_ms, 60_000) * 60_000 + 60_000
}

/// The end of the minute that goes on, up to which energy is asked for.
pub fn end_of_minute(now_ms: i64) -> (end_ms: i64)
    requires
        now_ms <= i64::MAX - 60_000,
    ensures
        end_ms == minute_end(now_ms as int),
{
    let minutes: i128 = arith::divide(now_ms as i128, 60_000);
    (minutes * 60_000 + 60_000) as i64
}

/// What is shown at a time is what the calendar of the zone says of it: the week with its own year,
/// and the year and month of the date.
pub proof fn clocks_show_the_zone(at_ms: i64, zone: Seq<char>)
    ensures
        shown_at(at_ms, zone).date == local_date(at_ms, zone),
        shown_at(at_ms, zone).hour == local_hour(at_ms, zone),
        shown_at(at_ms, zone).offset == local_offset(at_ms, zone),
        (shown_at(at_ms, zone).week_year, shown_at(at_ms, zone).week) == local_week(at_ms, zone),
        shown_at(at_ms, zone).year == local_year(at_ms, zone),
        shown_at(at_ms, zone).month == local_month(at_ms, zone),
{
}

/// The key of a period can be read: a month is its year, a hyphen and two digits that denote the
/// month; a week is its year, a hyphen, a `W` and two digits that denote the week; an hour is its
/// date, a `T`, two digits that denote the hour, `:00` and the distance from universal time.
pub proof fn keys_can_be_read(t: LocalTimeModel)
    requires
        t.month < 100,
        t.week < 100,
        t.hour < 100,
    ensures
        Period::Year.key(t) == text::signed(t.year as int),
        ({
            let key = Period::Month.key(t);
            let n = key.len() - 3;
            &&& n >= 1
            &&& key.take(n) == text::signed(t.year as int)
            &&& key[n] == '-'
            &&& 10 * (key[n + 1] as int - 48) + (key[n + 2] as int - 48) == t.month
            &&& '0' <= key[n + 1] <= '9' && '0' <= key[n + 2] <= '9'
        }),
        ({
            let key = Period::Week.key(t);
            let n = key.len() - 4;
            &&& n >= 1
            &&& key.take(n) == text::signed(t.week_year as int)
            &&& key[n] == '-' && key[n + 1] == 'W'
            &&& 10 * (key[n + 2] as int - 48) + (key[n + 3] as int - 48) == t.week
            &&& '0' <= key[n + 2] <= '9' && '0' <= key[n + 3] <= '9'
        }),
        Period::Day.key(t) == t.date,
        ({
            let key = Period::Hour.key(t);
            let n = t.date.len() as int;
            &&& key.len() == n + 6 + t.offset.len()
            &&& key.take(n) == t.date
            &&& key[n] == 'T'
            &&& 10 * (key[n + 1] as int - 48) + (key[n + 2] as int - 48) == t.hour
            &&& '0' <= key[n + 1] <= '9' && '0' <= key[n + 2] <= '9'
            &&& key[n + 3] == ':' && key[n + 4] == '0' && key[n + 5] == '0'
            &&& key.skip(n + 6) == t.offset
        }),
{
    reveal_strlit("-");
    reveal_strlit("-W");
    reveal_strlit("T");
    reveal_strlit(":00");
    text::two_digits(t.month as nat);
    text::two_digits(t.week as nat);
    text::two_digits(t.hour as nat);
    let year = text::signed(t.year as int);
    let week_year = text::signed(t.week_year as int);
    text::decimal_reads_back(text::magnitude(t.year as int));
    text::decimal_reads_back(text::magnitude(t.week_year as int));
    let month = Period::Month.key(t);
    let week = Period::Week.key(t);
    let hour = Period::Hour.key(t);
    let m = text::padded(t.month as int, 2);
    let w = text::padded(t.week as int, 2);
    let h = text::padded(t.hour as int, 2);
    assert(month.take(month.len() - 3) =~= year);
    assert(month[month.len() - 2] == m[0] && month[month.len() - 1] == m[1]);
    assert(week.take(week.len() - 4) =~= week_year);
    assert(week[week.len() - 2] == w[0] && week[week.len() - 1] == w[1]);
    let n = t.date.len() as int;
    assert(hour.take(n) =~= t.date);
    assert(hour[n + 1] == h[0] && hour[n + 2] == h[1]);
    assert(hour.skip(n + 6) =~= t.offset);
}

/// Two times lie in the same period if and only if the calendar says so: in the same year, in the same
/// month of it, in the same week of its own year, on the same date, or in the same hour of a date at
/// the same distance from universal time.
pub proof fn periods_are_told_apart(a: LocalTimeModel, b: LocalTimeModel)
    requires
        a.month < 100,
        b.month < 100,
        a.week < 100,
        b.week < 100,
        a.hour < 100,
        b.hour < 100,
    ensures
        Period::Year.key(a) == Period::Year.key(b) <==> a.year == b.year,
        Period::Month.key(a) == Period::Month.key(b) <==> a.year == b.year && a.month == b.month,
        Period::Week.key(a) == Period::Week.key(b) <==> a.week_year == b.week_year && a.week
            == b.week,
        Period::Day.key(a) == Period::Day.key(b) <==> a.date == b.date,
        a.offset.len() == b.offset.len() ==> (Period::Hour.key(a) == Period::Hour.key(b) <==> a.date
            == b.date && a.hour == b.hour && a.offset == b.offset),
{
    keys_can_be_read(a);
    keys_can_be_read(b);
    text::signed_numbers_differ(a.year as int, b.year as int);
    text::signed_numbers_differ(a.week_year as int, b.week_year as int);
}

/// A day begins with the first of its minutes that the clock of the zone shows; it does not exist
/// where the clock shows none of them.
pub proof fn days_begin_with_their_first_minute(day: i32, zone: Seq<char>)
    ensures
        match first_minute(day, 0, zone) {
            Some(at_ms) => exists|m: int|
                0 <= m < 1440 && #[trigger] shows_minute(day, m, zone) == Some(at_ms) && forall|k: int|
                    0 <= k < m ==> #[trigger] shows_minute(day, k, zone) is None,
            None => forall|k: int| 0 <= k < 1440 ==> #[trigger] shows_minute(day, k, zone) is None,
        },
{
    first_minute_from(day, 0, zone);
}

/// When the clock of a zone shows the `m`-th minute of a day.
pub open spec fn shows_minute(day: i32, m: int, zone: Seq<char>) -> Option<i64> {
    earliest_at(day, (m / 60) as u32, (m % 60) as u32, zone)
}

/// The first minute from some minute on that exists.
proof fn first_minute_from(day: i32, minute: nat, zone: Seq<char>)
    requires
        minute <= 1440,
    ensures
        match first_minute(day, minute, zone) {
            Some(at_ms) => exists|m: int|
                minute <= m < 1440 && #[trigger] shows_minute(day, m, zone) == Some(at_ms)
                    && forall|k: int|
                    minute <= k < m ==> #[trigger] shows_minute(day, k, zone) is None,
            None => forall|k: int|
                minute <= k < 1440 ==> #[trigger] shows_minute(day, k, zone) is None,
        },
    decreases 1440 - minute,
{
    if minute < 1440 {
        let here = shows_minute(day, minute as int, zone);
        if here is None {
            first_minute_from(day, minute + 1, zone);
            if let Some(at_ms) = first_minute(day, minute, zone) {
                let m = choose|m: int|
                    minute + 1 <= m < 1440 && #[trigger] shows_minute(day, m, zone) == Some(at_ms)
                        && forall|k: int|
                        minute + 1 <= k < m ==> #[trigger] shows_minute(day, k, zone) is None;
                assert forall|k: int| minute <= k < m implies #[trigger] shows_minute(
                    day,
                    k,
                    zone,
                ) is None by {}
                assert(shows_minute(day, m, zone) == Some(at_ms));
            }
        }
    }
}

/// The end of a day is the beginning of the first day after it that exists in the zone, of as many as
/// are tried; where none of them exists there is no end, nor where the calendar ends before.
pub proof fn days_end_with_the_next_one(day: int, tries: nat, zone: Seq<char>)
    ensures
        match next_start(day, tries, zone) {
            Following::Begins(at_ms) => exists|k: int|
                0 <= k < tries && day + k <= LAST_DAY && #[trigger] first_minute(
                    (day + k) as i32,
                    0,
                    zone,
                ) == Some(at_ms) && forall|j: int|
                    0 <= j < k ==> #[trigger] first_minute((day + j) as i32, 0, zone) is None,
            Following::Overflow => day + tries > LAST_DAY && forall|j: int|
                0 <= j < tries && day + j <= LAST_DAY ==> #[trigger] first_minute(
                    (day + j) as i32,
                    0,
                    zone,
                ) is None,
            Following::Missing => day + tries <= LAST_DAY && forall|j: int|
                0 <= j < tries ==> #[trigger] first_minute((day + j) as i32, 0, zone) is None,
        },
    decreases tries,
{
    if day <= LAST_DAY && tries > 0 {
        if first_minute(day as i32, 0, zone) is None {
            days_end_with_the_next_one(day + 1, (tries - 1) as nat, zone);
            let rest = next_start(day + 1, (tries - 1) as nat, zone);
            assert forall|j: int| 0 < j implies #[trigger] first_minute((day + j) as i32, 0, zone)
                == first_minute((day + 1 + (j - 1)) as i32, 0, zone) by {}
            match rest {
                Following::Begins(at_ms) => {
                    let k = choose|k: int|
                        0 <= k < tries - 1 && day + 1 + k <= LAST_DAY && #[trigger] first_minute(
                            (day + 1 + k) as i32,
                            0,
                            zone,
                        ) == Some(at_ms) && forall|j: int|
                            0 <= j < k ==> #[trigger] first_minute(
                                (day + 1 + j) as i32,
                                0,
                                zone,
                            ) is None;
                    assert(first_minute((day + (k + 1)) as i32, 0, zone) == Some(at_ms));
                    assert forall|j: int| 0 <= j < k + 1 implies #[trigger] first_minute(
                        (day + j) as i32,
                        0,
                        zone,
                    ) is None by {
                        if j > 0 {
                            assert(first_minute((day + 1 + (j - 1)) as i32, 0, zone) is None);
                        }
                    }
                },
                _ => {
                    assert forall|j: int|
                        0 <= j < tries && day + j <= LAST_DAY implies #[trigger] first_minute(
                        (day + j) as i32,
                        0,
                        zone,
                    ) is None by {
                        if j > 0 {
                            assert(first_minute((day + 1 + (j - 1)) as i32, 0, zone) is None);
                        }
                    }
                },
            }
        } else {
            assert(first_minute((day + 0) as i32, 0, zone) is Some);
        }
    }
}

/// Energy is asked for up to the end of the minute that goes on: a whole minute, later than now and at
/// most one minute later.
pub proof fn minutes_end_later_than_now(now_ms: int)
    requires
        now_ms >= 0,
    ensures
        now_ms < minute_end(now_ms) <= now_ms + 60_000,
        minute_end(now_ms) % 60_000 == 0,
{
    arith::fractions_are_dropped(now_ms, 60_000);
}

/// The instants that have a date lie in the years from -262143 to 262142, and those that have one
/// everywhere are a day further from both ends.
pub proof fn dates_have_limits(at_ms: i64)
    ensures
        is_instant(at_ms) <==> -8_334_601_228_800_000 <= at_ms && at_ms < 8_210_266_876_800_000,
        is_local_everywhere(at_ms) <==> -8_334_601_142_400_000 <= at_ms && at_ms
            < 8_210_266_790_400_000,
        LAST_DAY == 95_745_399,
        FIRST_DAY == -95_746_129,
{
}

/// Each period has its name.
pub proof fn periods_have_names()
    ensures
        Period::Hour.title() == "hour"@,
        Period::Day.title() == "day"@,
        Period::Week.title() == "week"@,
        Period::Month.title() == "month"@,
        Period::Year.title() == "year"@,
{
}

} // verus!
