//! Schedules: when a job is due.
use crate::clock;
use crate::text;
use vstd::prelude::*;
use vstd::string::*;

verus! {

/// How late, in seconds, an occurrence may still be started.
pub const DUE_GRACE_SECONDS: i128 = 60;

/// How many occurrences are looked at when those that are due are collected.
pub const DUE_LOOKUPS: usize = 64;

/// How many candidates are tried for one occurrence.
pub const CANDIDATES: usize = 128;

/// The first second that a calendar date is computed for in every time zone: 3 January of the year
/// -262143 begins, two days after the calendar does.
pub const FIRST_SECOND: i64 = -8_334_601_142_400;

/// The last second that a calendar date is computed for in every time zone: 29 December of the year
/// 262142 ends, two days before the calendar does.
pub const LAST_SECOND: i64 = 8_210_266_703_999;

/// Whether a calendar date is computed for an instant.
pub open spec fn is_instant(i: int) -> bool {
    FIRST_SECOND * 1_000_000_000 <= i < (LAST_SECOND + 1) * 1_000_000_000
}

// ---------------------------------------------------------------------------
// Calendars and cron expressions

/// Whether `chrono_tz` knows a time zone of this name.
pub uninterp spec fn zone_known(zone: Seq<char>) -> bool;

/// The instant that `chrono` reads from an RFC 3339 timestamp, or the message of its error. A leap
/// second counts as the second after it.
pub uninterp spec fn rfc3339_instant(text: Seq<char>) -> Result<int, Seq<char>>;

/// The wall-clock time in a zone at an instant, as the instant of that wall-clock time in UTC.
pub uninterp spec fn local_time(zone: Seq<char>, instant: int) -> int;

/// The earlier of the two instants that have the wall-clock time of `instant` in a zone, where
/// there are two.
pub uninterp spec fn earlier_twin(zone: Seq<char>, instant: int) -> Option<int>;

/// The RFC 3339 timestamp, in whole seconds, of an instant in a zone.
pub uninterp spec fn zoned_timestamp(zone: Seq<char>, instant: int) -> Seq<char>;

/// The RFC 3339 timestamp of an instant in UTC, with as many decimals of a second as it needs.
pub uninterp spec fn utc_timestamp(instant: int) -> Seq<char>;

/// The message of the error that `croner` gives for a cron expression, where it gives one.
pub uninterp spec fn cron_fault(expression: Seq<char>) -> Option<Seq<char>>;

/// What `croner` says of a cron expression in words.
pub uninterp spec fn cron_words(expression: Seq<char>) -> Seq<char>;

/// The first instant after `instant` that `croner` finds for an expression in a zone, or the
/// message of its error.
pub uninterp spec fn cron_next(expression: Seq<char>, zone: Seq<char>, instant: int) -> Result<
    int,
    Seq<char>,
>;

/// Whether the wall-clock time at an instant matches an expression, or the message of the error.
pub uninterp spec fn cron_matches(expression: Seq<char>, zone: Seq<char>, instant: int) -> Result<
    bool,
    Seq<char>,
>;

/// The instant of whole seconds and nanoseconds.
pub open spec fn instant_of(seconds: i64, nanoseconds: u32) -> int {
    seconds * 1_000_000_000 + nanoseconds
}

/// `str::parse` into a `chrono_tz::Tz`: whether it succeeds depends on the name alone.
#[verifier::external_body]
fn zone_exists(zone: &str) -> (r: bool)
    ensures
        r == zone_known(zone@),
{
    zone.parse::<chrono_tz::Tz>().is_ok()
}

/// `chrono::DateTime::parse_from_rfc3339`: the instant, or the message of the error. The years it
/// reads have four digits, so that the instant has a calendar date.
#[verifier::external_body]
fn parse_rfc3339(text: &str) -> (r: Result<(i64, u32), String>)
    ensures
        match r {
            Ok(t) => rfc3339_instant(text@) == Ok::<int, Seq<char>>(instant_of(t.0, t.1))
                && is_instant(instant_of(t.0, t.1)),
            Err(e) => rfc3339_instant(text@) == Err::<int, Seq<char>>(e@),
        },
{
    match chrono::DateTime::parse_from_rfc3339(text) {
        Ok(t) => Ok((t.timestamp(), t.timestamp_subsec_nanos())),
        Err(error) => Err(error.to_string()),
    }
}

/// `chrono::DateTime::naive_local` of an instant in a zone. The result is named; nothing more is
/// said of the rules of time zones.
#[verifier::external_body]
fn wall_clock(zone: &str, seconds: i64, nanoseconds: u32) -> (r: (i64, u32))
    requires
        zone_known(zone@),
        nanoseconds < 1_000_000_000,
        is_instant(instant_of(seconds, nanoseconds)),
    ensures
        instant_of(r.0, r.1) == local_time(zone@, instant_of(seconds, nanoseconds)),
{
    let zone: chrono_tz::Tz = zone.parse().unwrap();
    let utc = chrono::DateTime::from_timestamp(seconds, nanoseconds).unwrap();
    let local = utc.with_timezone(&zone).naive_local().and_utc();
    (local.timestamp(), local.timestamp_subsec_nanos())
}

/// `chrono::TimeZone::from_local_datetime` of the wall-clock time at an instant in a zone: the
/// first of the two instants where it says that the time is ambiguous.
#[verifier::external_body]
fn first_twin(zone: &str, seconds: i64, nanoseconds: u32) -> (r: Option<(i64, u32)>)
    requires
        zone_known(zone@),
        nanoseconds < 1_000_000_000,
        is_instant(instant_of(seconds, nanoseconds)),
    ensures
        r is Some == earlier_twin(zone@, instant_of(seconds, nanoseconds)) is Some,
        r matches Some(t) ==> earlier_twin(zone@, instant_of(seconds, nanoseconds)) == Some(
            instant_of(t.0, t.1),
        ),
{
    let zone: chrono_tz::Tz = zone.parse().unwrap();
    let utc = chrono::DateTime::from_timestamp(seconds, nanoseconds).unwrap();
    let local = utc.with_timezone(&zone).naive_local();
    match chrono::TimeZone::from_local_datetime(&zone, &local) {
        chrono::LocalResult::Ambiguous(t, _) => Some((t.timestamp(), t.timestamp_subsec_nanos())),
        chrono::LocalResult::Single(_) => None,
        chrono::LocalResult::None => None,
    }
}

/// `chrono::DateTime::to_rfc3339_opts`, in whole seconds, of an instant in a zone.
#[verifier::external_body]
fn format_in_zone(zone: &str, seconds: i64, nanoseconds: u32) -> (r: String)
    requires
        zone_known(zone@),
        nanoseconds < 1_000_000_000,
        is_instant(instant_of(seconds, nanoseconds)),
    ensures
        r@ == zoned_timestamp(zone@, instant_of(seconds, nanoseconds)),
{
    let zone: chrono_tz::Tz = zone.parse().unwrap();
    let utc = chrono::DateTime::from_timestamp(seconds, nanoseconds).unwrap();
    utc.with_timezone(&zone).to_rfc3339_opts(chrono::SecondsFormat::Secs, true)
}

/// `chrono::DateTime::to_rfc3339_opts`, in three, six or nine decimals where whole seconds do not
/// do, of an instant in UTC.
#[verifier::external_body]
fn format_utc(seconds: i64, nanoseconds: u32) -> (r: String)
    requires
        nanoseconds < 1_000_000_000,
        is_instant(instant_of(seconds, nanoseconds)),
    ensures
        r@ == utc_timestamp(instant_of(seconds, nanoseconds)),
{
    let utc = chrono::DateTime::from_timestamp(seconds, nanoseconds).unwrap();
    utc.to_rfc3339_opts(chrono::SecondsFormat::AutoSi, true)
}

/// `str::parse` into a `croner::Cron`: the message of the error, where there is one.
#[verifier::external_body]
fn check_cron(expression: &str) -> (r: Option<String>)
    ensures
        r is Some == cron_fault(expression@) is Some,
        r matches Some(e) ==> cron_fault(expression@) == Some(e@),
{
    expression.parse::<croner::Cron>().err().map(|error| error.to_string())
}

/// `croner::Cron::describe` of an expression that parses.
#[verifier::external_body]
fn describe_cron(expression: &str) -> (r: String)
    requires
        cron_fault(expression@) is None,
    ensures
        r@ == cron_words(expression@),
{
    expression.parse::<croner::Cron>().unwrap().describe()
}

/// `croner::Cron::find_next_occurrence` after an instant in a zone, which itself does not count.
#[verifier::external_body]
fn find_next(expression: &str, zone: &str, seconds: i64, nanoseconds: u32) -> (r: Result<
    (i64, u32),
    String,
>)
    requires
        cron_fault(expression@) is None,
        zone_known(zone@),
        nanoseconds < 1_000_000_000,
        is_instant(instant_of(seconds, nanoseconds)),
    ensures
        match r {
            Ok(t) => cron_next(expression@, zone@, instant_of(seconds, nanoseconds)) == Ok::<
                int,
                Seq<char>,
            >(instant_of(t.0, t.1)),
            Err(e) => cron_next(expression@, zone@, instant_of(seconds, nanoseconds)) == Err::<
                int,
                Seq<char>,
            >(e@),
        },
{
    let zone: chrono_tz::Tz = zone.parse().unwrap();
    let utc = chrono::DateTime::from_timestamp(seconds, nanoseconds).unwrap();
    let cron = expression.parse::<croner::Cron>().unwrap();
    match cron.find_next_occurrence(&utc.with_timezone(&zone), false) {
        Ok(t) => Ok((t.timestamp(), t.timestamp_subsec_nanos())),
        Err(error) => Err(error.to_string()),
    }
}

/// `croner::Cron::is_time_matching` at an instant in a zone.
#[verifier::external_body]
fn time_matches(expression: &str, zone: &str, seconds: i64, nanoseconds: u32) -> (r: Result<
    bool,
    String,
>)
    requires
        cron_fault(expression@) is None,
        zone_known(zone@),
        nanoseconds < 1_000_000_000,
        is_instant(instant_of(seconds, nanoseconds)),
    ensures
        match r {
            Ok(b) => cron_matches(expression@, zone@, instant_of(seconds, nanoseconds)) == Ok::<
                bool,
                Seq<char>,
            >(b),
            Err(e) => cron_matches(expression@, zone@, instant_of(seconds, nanoseconds)) == Err::<
                bool,
                Seq<char>,
            >(e@),
        },
{
    let zone: chrono_tz::Tz = zone.parse().unwrap();
    let utc = chrono::DateTime::from_timestamp(seconds, nanoseconds).unwrap();
    let cron = expression.parse::<croner::Cron>().unwrap();
    cron.is_time_matching(&utc.with_timezone(&zone)).map_err(|error| error.to_string())
}

// ---------------------------------------------------------------------------
// Reading a schedule

/// What a schedule says.
#[derive(Debug)]
pub enum ParsedSchedule {
    /// Whenever a cron expression matches.
    Cron(String),
    /// Once at an instant.
    At(i128),
    /// Once when the daemon starts.
    Reboot,
}

/// What a schedule says.
pub enum ScheduleView {
    Cron(Seq<char>),
    At(int),
    Reboot,
}

impl View for ParsedSchedule {
    type V = ScheduleView;

    open spec fn view(&self) -> ScheduleView {
        match *self {
            ParsedSchedule::Cron(e) => ScheduleView::Cron(e@),
            ParsedSchedule::At(i) => ScheduleView::At(i as int),
            ParsedSchedule::Reboot => ScheduleView::Reboot,
        }
    }
}

/// Why a schedule cannot be read.
#[derive(Debug)]
pub enum ScheduleError {
    /// No timestamp follows `@at`.
    At(String),
    /// Neither five fields nor an alias.
    Fields,
    /// No cron expression.
    Cron(String),
}

/// Why a schedule cannot be read.
pub enum ScheduleFault {
    At(Seq<char>),
    Fields,
    Cron(Seq<char>),
}

impl View for ScheduleError {
    type V = ScheduleFault;

    open spec fn view(&self) -> ScheduleFault {
        match *self {
            ScheduleError::At(e) => ScheduleFault::At(e@),
            ScheduleError::Fields => ScheduleFault::Fields,
            ScheduleError::Cron(e) => ScheduleFault::Cron(e@),
        }
    }
}

impl ScheduleFault {
    /// What a person is told.
    pub open spec fn text(self) -> Seq<char> {
        match self {
            ScheduleFault::At(e) => "@at must be followed by an RFC 3339 timestamp: "@ + e,
            ScheduleFault::Fields =>
                "cron expressions must contain five fields or a supported alias"@,
            ScheduleFault::Cron(e) => e,
        }
    }
}

impl ScheduleError {
    /// What a person is told.
    pub fn message(&self) -> (s: String)
        ensures
            s@ == self@.text(),
    {
        match self {
            ScheduleError::At(e) => text::cat2(
                "@at must be followed by an RFC 3339 timestamp: ",
                e,
            ),
            ScheduleError::Fields =>
                "cron expressions must contain five fields or a supported alias".to_owned(),
            ScheduleError::Cron(e) => e.clone(),
        }
    }
}

/// How many of the first `n` characters begin a field: a run of characters without white space.
pub open spec fn field_count(s: Seq<char>, n: nat) -> nat
    decreases n,
{
    if n == 0 {
        0
    } else {
        let before = field_count(s, (n - 1) as nat);
        if !text::is_white(s[n - 1]) && (n == 1 || text::is_white(s[n - 2])) {
            before + 1
        } else {
            before
        }
    }
}

/// Whether a text is one of the names for frequent schedules.
pub open spec fn is_alias(s: Seq<char>) -> bool {
    s == "@hourly"@ || s == "@daily"@ || s == "@weekly"@ || s == "@monthly"@ || s == "@yearly"@ || s
        == "@annually"@
}

/// What a schedule says, or why it cannot be read.
pub open spec fn read_schedule(value: Seq<char>) -> Result<ScheduleView, ScheduleFault> {
    let s = text::trimmed(value);
    if s == "@reboot"@ {
        Ok(ScheduleView::Reboot)
    } else if text::begins_with(s, "@at "@) {
        match rfc3339_instant(text::trimmed(s.skip("@at "@.len() as int))) {
            Ok(i) => Ok(ScheduleView::At(i)),
            Err(e) => Err(ScheduleFault::At(e)),
        }
    } else if !is_alias(s) && field_count(s, s.len()) != 5 {
        Err(ScheduleFault::Fields)
    } else {
        match cron_fault(s) {
            Some(e) => Err(ScheduleFault::Cron(e)),
            None => Ok(ScheduleView::Cron(s)),
        }
    }
}

fn count_fields(s: &str) -> (n: usize)
    ensures
        n as nat == field_count(s@, s@.len()),
{
    let v = text::chars_of(s);
    let mut n: usize = 0;
    let mut i: usize = 0;
    while i < v.len()
        invariant
            i <= v@.len(),
            n <= i,
            v@ == s@,
            n as nat == field_count(s@, i as nat),
        decreases v@.len() - i,
    {
        if !text::white(v[i]) && (i == 0 || text::white(v[i - 1])) {
            n += 1;
        }
        i += 1;
    }
    n
}

/// Reads a schedule.
pub fn parse_schedule(value: &str) -> (r: Result<ParsedSchedule, ScheduleError>)
    ensures
        match r {
            Ok(s) => read_schedule(value@) == Ok::<ScheduleView, ScheduleFault>(s@),
            Err(e) => read_schedule(value@) == Err::<ScheduleView, ScheduleFault>(e@),
        },
        r matches Ok(ParsedSchedule::At(i)) ==> is_instant(i as int),
        r matches Ok(ParsedSchedule::Cron(e)) ==> cron_fault(e@) is None,
{
    let s = text::trim(value);
    if text::same(s, "@reboot") {
        return Ok(ParsedSchedule::Reboot);
    }
    if let Some(at) = text::strip_prefix(s, "@at ") {
        return match parse_rfc3339(text::trim(at)) {
            Ok((seconds, nanoseconds)) => Ok(
                ParsedSchedule::At(clock::instant(seconds, nanoseconds)),
            ),
            Err(e) => Err(ScheduleError::At(e)),
        };
    }
    let alias = text::same(s, "@hourly") || text::same(s, "@daily") || text::same(s, "@weekly")
        || text::same(s, "@monthly") || text::same(s, "@yearly") || text::same(s, "@annually");
    if !alias && count_fields(s) != 5 {
        return Err(ScheduleError::Fields);
    }
    match check_cron(s) {
        Some(e) => Err(ScheduleError::Cron(e)),
        None => Ok(ParsedSchedule::Cron(s.to_owned())),
    }
}

/// Whether a time zone is known.
pub fn parse_time_zone(zone: &str) -> (r: bool)
    ensures
        r == zone_known(zone@),
{
    zone_exists(zone)
}

/// What is said of an unknown time zone; the last words are those of `chrono_tz::ParseError`.
pub open spec fn unknown_zone_text(zone: Seq<char>) -> Seq<char> {
    "unknown IANA time zone "@ + text::quoted(zone) + ": failed to parse timezone"@
}

/// What is said of an unknown time zone.
pub fn unknown_zone(zone: &str) -> (s: String)
    ensures
        s@ == unknown_zone_text(zone@),
{
    text::cat3("unknown IANA time zone ", &text::quote(zone), ": failed to parse timezone")
}

// ---------------------------------------------------------------------------
// Finding occurrences

/// Why no occurrence was found.
#[derive(Debug)]
pub enum OccurrenceError {
    /// The schedule cannot be read.
    Schedule(ScheduleError),
    /// The time zone is unknown.
    Zone(String),
    /// The search failed.
    Search(String),
    /// The search left the calendar.
    OutOfRange,
    /// No candidate was valid.
    NoOccurrence,
}

/// Why no occurrence was found.
pub enum OccurrenceFault {
    Schedule(ScheduleFault),
    Zone(Seq<char>),
    Search(Seq<char>),
    OutOfRange,
    NoOccurrence,
}

impl View for OccurrenceError {
    type V = OccurrenceFault;

    open spec fn view(&self) -> OccurrenceFault {
        match *self {
            OccurrenceError::Schedule(e) => OccurrenceFault::Schedule(e@),
            OccurrenceError::Zone(z) => OccurrenceFault::Zone(z@),
            OccurrenceError::Search(e) => OccurrenceFault::Search(e@),
            OccurrenceError::OutOfRange => OccurrenceFault::OutOfRange,
            OccurrenceError::NoOccurrence => OccurrenceFault::NoOccurrence,
        }
    }
}

impl OccurrenceFault {
    /// What a person is told.
    pub open spec fn text(self) -> Seq<char> {
        match self {
            OccurrenceFault::Schedule(e) => e.text(),
            OccurrenceFault::Zone(z) => unknown_zone_text(z),
            OccurrenceFault::Search(e) => e,
            OccurrenceFault::OutOfRange => "the search left the calendar"@,
            OccurrenceFault::NoOccurrence =>
                "cron expression did not yield a valid local-time occurrence"@,
        }
    }
}

impl OccurrenceError {
    /// What a person is told.
    pub fn message(&self) -> (s: String)
        ensures
            s@ == self@.text(),
    {
        match self {
            OccurrenceError::Schedule(e) => e.message(),
            OccurrenceError::Zone(z) => unknown_zone(z),
            OccurrenceError::Search(e) => e.clone(),
            OccurrenceError::OutOfRange => "the search left the calendar".to_owned(),
            OccurrenceError::NoOccurrence =>
                "cron expression did not yield a valid local-time occurrence".to_owned(),
        }
    }
}

/// Whether the wall-clock time at an instant was there before, because the clock went back.
pub open spec fn is_repeated(zone: Seq<char>, instant: int) -> bool {
    earlier_twin(zone, instant) matches Some(first) && first != instant
}

/// The first valid occurrence after `cursor` among at most `tries` candidates. A candidate is not
/// valid where its wall-clock time is a repeated one, does not match, or is that of the last
/// occurrence.
pub open spec fn search(
    expression: Seq<char>,
    zone: Seq<char>,
    cursor: int,
    last_local: Option<int>,
    tries: nat,
) -> Result<int, OccurrenceFault>
    decreases tries,
{
    if tries == 0 {
        Err(OccurrenceFault::NoOccurrence)
    } else if !is_instant(cursor) {
        Err(OccurrenceFault::OutOfRange)
    } else {
        match cron_next(expression, zone, cursor) {
            Err(e) => Err(OccurrenceFault::Search(e)),
            Ok(next) => if !is_instant(next) {
                Err(OccurrenceFault::OutOfRange)
            } else if is_repeated(zone, next) {
                search(expression, zone, next, last_local, (tries - 1) as nat)
            } else {
                match cron_matches(expression, zone, next) {
                    Err(e) => Err(OccurrenceFault::Search(e)),
                    Ok(matching) => if !matching || last_local == Some(local_time(zone, next)) {
                        search(expression, zone, next, last_local, (tries - 1) as nat)
                    } else {
                        Ok(next)
                    },
                }
            },
        }
    }
}

/// Whether a calendar date is computed for an instant.
pub fn in_calendar(i: i128) -> (r: bool)
    ensures
        r == is_instant(i as int),
{
    FIRST_SECOND as i128 * 1_000_000_000 <= i && i < (LAST_SECOND as i128 + 1) * 1_000_000_000
}

/// Whole seconds, rounded down, and the nanoseconds left.
fn split(i: i128) -> (r: (i64, u32))
    requires
        is_instant(i as int),
    ensures
        instant_of(r.0, r.1) == i,
        r.1 < 1_000_000_000,
{
    let shifted: i128 = i - FIRST_SECOND as i128 * 1_000_000_000;
    let seconds: i128 = shifted / 1_000_000_000;
    let nanoseconds: i128 = shifted % 1_000_000_000;
    assert(shifted == seconds * 1_000_000_000 + nanoseconds) by (nonlinear_arith)
        requires
            shifted >= 0,
            seconds == shifted / 1_000_000_000,
            nanoseconds == shifted % 1_000_000_000,
    ;
    ((seconds + FIRST_SECOND as i128) as i64, nanoseconds as u32)
}

/// The timestamp of an instant in UTC.
pub fn utc_text(instant: i128) -> (r: String)
    requires
        is_instant(instant as int),
    ensures
        r@ == utc_timestamp(instant as int),
{
    let (seconds, nanoseconds) = split(instant);
    format_utc(seconds, nanoseconds)
}

/// Whether a candidate is an occurrence: its wall-clock time is not a repeated one, matches, and is not
/// that of the last occurrence.
pub fn accepts(repeated: bool, matching: bool, local: i128, last_local: Option<i128>) -> (r: bool)
    ensures
        r == (!repeated && matching && last_local != Some(local)),
{
    !repeated && matching && last_local != Some(local)
}

/// Finds the first valid occurrence after `cursor`.
pub fn find_next_valid_cron_occurrence(
    expression: &str,
    zone: &str,
    cursor: i128,
    last_local: Option<i128>,
) -> (r: Result<i128, OccurrenceError>)
    requires
        cron_fault(expression@) is None,
        zone_known(zone@),
    ensures
        match r {
            Ok(next) => search(
                expression@,
                zone@,
                cursor as int,
                local_view(last_local),
                CANDIDATES as nat,
            ) == Ok::<int, OccurrenceFault>(next as int) && is_instant(next as int),
            Err(e) => search(
                expression@,
                zone@,
                cursor as int,
                local_view(last_local),
                CANDIDATES as nat,
            ) == Err::<int, OccurrenceFault>(e@),
        },
{
    let ghost wanted = search(
        expression@,
        zone@,
        cursor as int,
        local_view(last_local),
        CANDIDATES as nat,
    );
    let mut at: i128 = cursor;
    let mut tries: usize = CANDIDATES;
    while tries > 0
        invariant
            cron_fault(expression@) is None,
            zone_known(zone@),
            wanted == search(
                expression@,
                zone@,
                cursor as int,
                local_view(last_local),
                CANDIDATES as nat,
            ),
            wanted == search(expression@, zone@, at as int, local_view(last_local), tries as nat),
        decreases tries,
    {
        if !in_calendar(at) {
            return Err(OccurrenceError::OutOfRange);
        }
        let (seconds, nanoseconds) = split(at);
        let next: i128 = match find_next(expression, zone, seconds, nanoseconds) {
            Ok((s, n)) => clock::instant(s, n),
            Err(e) => {
                return Err(OccurrenceError::Search(e));
            },
        };
        if !in_calendar(next) {
            return Err(OccurrenceError::OutOfRange);
        }
        at = next;
        let (seconds, nanoseconds) = split(next);
        let repeated = match first_twin(zone, seconds, nanoseconds) {
            Some((s, n)) => clock::instant(s, n) != next,
            None => false,
        };
        let matching = if repeated {
            false
        } else {
            match time_matches(expression, zone, seconds, nanoseconds) {
                Ok(matching) => matching,
                Err(e) => {
                    return Err(OccurrenceError::Search(e));
                },
            }
        };
        let (s, n) = wall_clock(zone, seconds, nanoseconds);
        if accepts(repeated, matching, clock::instant(s, n), last_local) {
            return Ok(next);
        }
        tries -= 1;
    }
    Err(OccurrenceError::NoOccurrence)
}

/// An optional wall-clock time.
pub open spec fn local_view(local: Option<i128>) -> Option<int> {
    match local {
        Some(i) => Some(i as int),
        None => None,
    }
}

/// The next `count` valid occurrences after `cursor`.
pub open spec fn upcoming(
    expression: Seq<char>,
    zone: Seq<char>,
    cursor: int,
    last_local: Option<int>,
    count: nat,
) -> Result<Seq<int>, OccurrenceFault>
    decreases count,
{
    if count == 0 {
        Ok(Seq::empty())
    } else {
        match search(expression, zone, cursor, last_local, CANDIDATES as nat) {
            Err(e) => Err(e),
            Ok(next) => match upcoming(
                expression,
                zone,
                next,
                Some(local_time(zone, next)),
                (count - 1) as nat,
            ) {
                Err(e) => Err(e),
                Ok(rest) => Ok(seq![next] + rest),
            },
        }
    }
}

/// `done` followed by what is still to come.
pub open spec fn continued(done: Seq<int>, rest: Result<Seq<int>, OccurrenceFault>) -> Result<
    Seq<int>,
    OccurrenceFault,
> {
    match rest {
        Err(e) => Err(e),
        Ok(r) => Ok(done + r),
    }
}

/// Instants as integers.
pub open spec fn instants(v: Seq<i128>) -> Seq<int> {
    Seq::new(v.len(), |i: int| v[i] as int)
}

fn local_at(zone: &str, instant: i128) -> (local: i128)
    requires
        zone_known(zone@),
        is_instant(instant as int),
    ensures
        local as int == local_time(zone@, instant as int),
{
    let (seconds, nanoseconds) = split(instant);
    let (s, n) = wall_clock(zone, seconds, nanoseconds);
    clock::instant(s, n)
}

fn next_cron_occurrences(expression: &str, zone: &str, after: i128, count: usize) -> (r: Result<
    Vec<i128>,
    OccurrenceError,
>)
    requires
        cron_fault(expression@) is None,
        zone_known(zone@),
    ensures
        match r {
            Ok(v) => upcoming(expression@, zone@, after as int, None, count as nat) == Ok::<
                Seq<int>,
                OccurrenceFault,
            >(instants(v@)),
            Err(e) => upcoming(expression@, zone@, after as int, None, count as nat) == Err::<
                Seq<int>,
                OccurrenceFault,
            >(e@),
        },
{
    let ghost wanted = upcoming(expression@, zone@, after as int, None, count as nat);
    let mut result: Vec<i128> = Vec::new();
    let mut cursor: i128 = after;
    let mut last_local: Option<i128> = None;
    let mut left: usize = count;
    assert(instants(result@) == Seq::<int>::empty());
    assert(wanted matches Ok(w) ==> Seq::<int>::empty() + w == w);
    while left > 0
        invariant
            cron_fault(expression@) is None,
            zone_known(zone@),
            wanted == upcoming(expression@, zone@, after as int, None, count as nat),
            wanted == continued(
                instants(result@),
                upcoming(
                    expression@,
                    zone@,
                    cursor as int,
                    local_view(last_local),
                    left as nat,
                ),
            ),
        decreases left,
    {
        let next: i128 = match find_next_valid_cron_occurrence(
            expression,
            zone,
            cursor,
            last_local,
        ) {
            Ok(next) => next,
            Err(e) => {
                return Err(e);
            },
        };
        let ghost before = instants(result@);
        last_local = Some(local_at(zone, next));
        result.push(next);
        cursor = next;
        left -= 1;
        proof {
            assert(instants(result@) == before.push(next as int));
            let rest = upcoming(
                expression@,
                zone@,
                cursor as int,
                local_view(last_local),
                left as nat,
            );
            if rest is Ok {
                assert(before + (seq![next as int] + rest->Ok_0) == before.push(next as int)
                    + rest->Ok_0);
            }
        }
    }
    assert(instants(result@) + Seq::<int>::empty() == instants(result@));
    Ok(result)
}

/// The next `count` occurrences of a schedule after `after`, in a zone.
pub open spec fn next_of(schedule: Seq<char>, zone: Seq<char>, after: int, count: nat) -> Result<
    Seq<int>,
    OccurrenceFault,
> {
    if !zone_known(zone) {
        Err(OccurrenceFault::Zone(zone))
    } else {
        match read_schedule(schedule) {
            Err(e) => Err(OccurrenceFault::Schedule(e)),
            Ok(ScheduleView::At(at)) => Ok(
                if at > after {
                    seq![at]
                } else {
                    Seq::empty()
                },
            ),
            Ok(ScheduleView::Reboot) => Ok(Seq::empty()),
            Ok(ScheduleView::Cron(e)) => upcoming(e, zone, after, None, count),
        }
    }
}

/// The next `count` occurrences of a schedule after `after`, in a zone.
pub fn next_schedule_occurrences(schedule: &str, zone: &str, after: i128, count: usize) -> (r:
    Result<Vec<i128>, OccurrenceError>)
    ensures
        match r {
            Ok(v) => next_of(schedule@, zone@, after as int, count as nat) == Ok::<
                Seq<int>,
                OccurrenceFault,
            >(instants(v@)),
            Err(e) => next_of(schedule@, zone@, after as int, count as nat) == Err::<
                Seq<int>,
                OccurrenceFault,
            >(e@),
        },
{
    if !parse_time_zone(zone) {
        return Err(OccurrenceError::Zone(zone.to_owned()));
    }
    match parse_schedule(schedule) {
        Err(e) => Err(OccurrenceError::Schedule(e)),
        Ok(ParsedSchedule::At(at)) => {
            let mut v: Vec<i128> = Vec::new();
            if at > after {
                v.push(at);
                assert(instants(v@) == seq![at as int]);
            } else {
                assert(instants(v@) == Seq::<int>::empty());
            }
            Ok(v)
        },
        Ok(ParsedSchedule::Reboot) => {
            let v: Vec<i128> = Vec::new();
            assert(instants(v@) == Seq::<int>::empty());
            Ok(v)
        },
        Ok(ParsedSchedule::Cron(e)) => next_cron_occurrences(&e, zone, after, count),
    }
}

/// Whether an occurrence at `at` may still be started at `now`.
pub open spec fn within_grace(at: int, now: int) -> bool {
    clock::whole_seconds(now - at) <= DUE_GRACE_SECONDS
}

/// Whether an occurrence at `at` may still be started at `now`.
pub fn in_grace(at: i128, now: i128) -> (r: bool)
    ensures
        r == within_grace(at as int, now as int),
{
    if at > now {
        return true;
    }
    match now.checked_sub(at) {
        Some(late) => late / 1_000_000_000 <= DUE_GRACE_SECONDS,
        None => {
            assert((now - at) / 1_000_000_000 > DUE_GRACE_SECONDS);
            false
        },
    }
}

/// The occurrences after `cursor` that are due at `now`, over at most `lookups` occurrences.
pub open spec fn due_after(
    expression: Seq<char>,
    zone: Seq<char>,
    cursor: int,
    last_local: Option<int>,
    now: int,
    lookups: nat,
) -> Result<Seq<int>, OccurrenceFault>
    decreases lookups,
{
    if lookups == 0 {
        Ok(Seq::empty())
    } else {
        match search(expression, zone, cursor, last_local, CANDIDATES as nat) {
            Err(e) => Err(e),
            Ok(next) => if next > now {
                Ok(Seq::empty())
            } else {
                match due_after(
                    expression,
                    zone,
                    next,
                    Some(local_time(zone, next)),
                    now,
                    (lookups - 1) as nat,
                ) {
                    Err(e) => Err(e),
                    Ok(rest) => if within_grace(next, now) {
                        Ok(seq![next] + rest)
                    } else {
                        Ok(rest)
                    },
                }
            },
        }
    }
}

fn due_cron_occurrences(expression: &str, zone: &str, start: i128, now: i128) -> (r: Result<
    Vec<i128>,
    OccurrenceError,
>)
    requires
        cron_fault(expression@) is None,
        zone_known(zone@),
    ensures
        match r {
            Ok(v) => due_after(
                expression@,
                zone@,
                start as int,
                None,
                now as int,
                DUE_LOOKUPS as nat,
            ) == Ok::<Seq<int>, OccurrenceFault>(instants(v@)),
            Err(e) => due_after(
                expression@,
                zone@,
                start as int,
                None,
                now as int,
                DUE_LOOKUPS as nat,
            ) == Err::<Seq<int>, OccurrenceFault>(e@),
        },
{
    let ghost wanted = due_after(
        expression@,
        zone@,
        start as int,
        None,
        now as int,
        DUE_LOOKUPS as nat,
    );
    let mut result: Vec<i128> = Vec::new();
    let mut cursor: i128 = start;
    let mut last_local: Option<i128> = None;
    let mut left: usize = DUE_LOOKUPS;
    assert(instants(result@) == Seq::<int>::empty());
    assert(wanted matches Ok(w) ==> Seq::<int>::empty() + w == w);
    while left > 0
        invariant
            cron_fault(expression@) is None,
            zone_known(zone@),
            wanted == due_after(
                expression@,
                zone@,
                start as int,
                None,
                now as int,
                DUE_LOOKUPS as nat,
            ),
            wanted == continued(
                instants(result@),
                due_after(
                    expression@,
                    zone@,
                    cursor as int,
                    local_view(last_local),
                    now as int,
                    left as nat,
                ),
            ),
        decreases left,
    {
        let next: i128 = match find_next_valid_cron_occurrence(
            expression,
            zone,
            cursor,
            last_local,
        ) {
            Ok(next) => next,
            Err(e) => {
                return Err(e);
            },
        };
        if next > now {
            assert(instants(result@) + Seq::<int>::empty() == instants(result@));
            return Ok(result);
        }
        let ghost before = instants(result@);
        last_local = Some(local_at(zone, next));
        cursor = next;
        left -= 1;
        if in_grace(next, now) {
            result.push(next);
            proof {
                assert(instants(result@) == before.push(next as int));
                let rest = due_after(
                    expression@,
                    zone@,
                    cursor as int,
                    local_view(last_local),
                    now as int,
                    left as nat,
                );
                if rest is Ok {
                    assert(before + (seq![next as int] + rest->Ok_0) == before.push(next as int)
                        + rest->Ok_0);
                }
            }
        }
    }
    assert(instants(result@) + Seq::<int>::empty() == instants(result@));
    Ok(result)
}

/// The occurrences of a schedule after `after` that are due at `now`, in a zone. What is more than
/// the grace period late is left out.
pub open spec fn due_of(schedule: Seq<char>, zone: Seq<char>, after: int, now: int) -> Result<
    Seq<int>,
    OccurrenceFault,
> {
    match read_schedule(schedule) {
        Err(e) => Err(OccurrenceFault::Schedule(e)),
        Ok(ScheduleView::At(at)) => Ok(
            if at > after && at <= now && within_grace(at, now) {
                seq![at]
            } else {
                Seq::empty()
            },
        ),
        Ok(ScheduleView::Reboot) => Ok(Seq::empty()),
        Ok(ScheduleView::Cron(e)) => if !zone_known(zone) {
            Err(OccurrenceFault::Zone(zone))
        } else {
            let grace_start = now - (DUE_GRACE_SECONDS + 1) * 1_000_000_000;
            due_after(
                e,
                zone,
                if after > grace_start {
                    after
                } else {
                    grace_start
                },
                None,
                now,
                DUE_LOOKUPS as nat,
            )
        },
    }
}

/// The occurrences of a schedule after `after` that are due at `now`, in a zone.
pub fn due_schedule_occurrences(schedule: &str, zone: &str, after: i128, now: i128) -> (r: Result<
    Vec<i128>,
    OccurrenceError,
>)
    requires
        is_instant(now as int),
    ensures
        match r {
            Ok(v) => due_of(schedule@, zone@, after as int, now as int) == Ok::<
                Seq<int>,
                OccurrenceFault,
            >(instants(v@)),
            Err(e) => due_of(schedule@, zone@, after as int, now as int) == Err::<
                Seq<int>,
                OccurrenceFault,
            >(e@),
        },
{
    match parse_schedule(schedule) {
        Err(e) => Err(OccurrenceError::Schedule(e)),
        Ok(ParsedSchedule::At(at)) => {
            let mut v: Vec<i128> = Vec::new();
            if at > after && at <= now && in_grace(at, now) {
                v.push(at);
                assert(instants(v@) == seq![at as int]);
            } else {
                assert(instants(v@) == Seq::<int>::empty());
            }
            Ok(v)
        },
        Ok(ParsedSchedule::Reboot) => {
            let v: Vec<i128> = Vec::new();
            assert(instants(v@) == Seq::<int>::empty());
            Ok(v)
        },
        Ok(ParsedSchedule::Cron(e)) => {
            if !parse_time_zone(zone) {
                return Err(OccurrenceError::Zone(zone.to_owned()));
            }
            let grace_start: i128 = now - (DUE_GRACE_SECONDS + 1) * clock::SECOND;
            let start: i128 = if after > grace_start {
                after
            } else {
                grace_start
            };
            due_cron_occurrences(&e, zone, start, now)
        },
    }
}

/// What a schedule is in words, in a zone.
pub open spec fn description_of(schedule: Seq<char>, zone: Seq<char>) -> Result<
    Seq<char>,
    OccurrenceFault,
> {
    match read_schedule(schedule) {
        Err(e) => Err(OccurrenceFault::Schedule(e)),
        Ok(ScheduleView::Cron(e)) => Ok(cron_words(e) + " ("@ + zone + ")"@),
        Ok(ScheduleView::At(at)) => if !zone_known(zone) {
            Err(OccurrenceFault::Zone(zone))
        } else {
            Ok("Once at "@ + zoned_timestamp(zone, at) + " ("@ + zone + ")"@)
        },
        Ok(ScheduleView::Reboot) => Ok("Once when the cron daemon starts"@),
    }
}

/// What a schedule is in words, in a zone.
pub fn describe_schedule(schedule: &str, zone: &str) -> (r: Result<String, OccurrenceError>)
    ensures
        match r {
            Ok(s) => description_of(schedule@, zone@) == Ok::<Seq<char>, OccurrenceFault>(s@),
            Err(e) => description_of(schedule@, zone@) == Err::<Seq<char>, OccurrenceFault>(e@),
        },
{
    match parse_schedule(schedule) {
        Err(e) => Err(OccurrenceError::Schedule(e)),
        Ok(ParsedSchedule::Cron(e)) => Ok(text::cat4(&describe_cron(&e), " (", zone, ")")),
        Ok(ParsedSchedule::At(at)) => {
            if !parse_time_zone(zone) {
                return Err(OccurrenceError::Zone(zone.to_owned()));
            }
            let (seconds, nanoseconds) = split(at);
            Ok(
                text::cat5(
                    "Once at ",
                    &format_in_zone(zone, seconds, nanoseconds),
                    " (",
                    zone,
                    ")",
                ),
            )
        },
        Ok(ParsedSchedule::Reboot) => Ok("Once when the cron daemon starts".to_owned()),
    }
}

// ---------------------------------------------------------------------------
// Laws

/// Nothing that is due lies in the future, and nothing that is more than the grace period late is
/// due.
pub proof fn due_occurrences_are_recent(
    expression: Seq<char>,
    zone: Seq<char>,
    cursor: int,
    last_local: Option<int>,
    now: int,
    lookups: nat,
)
    ensures
        due_after(expression, zone, cursor, last_local, now, lookups) matches Ok(due) ==> due.len()
            <= lookups && forall|i: int|
            0 <= i < due.len() ==> #[trigger] due[i] <= now && within_grace(due[i], now),
    decreases lookups,
{
    if lookups > 0 {
        match search(expression, zone, cursor, last_local, CANDIDATES as nat) {
            Err(_) => {},
            Ok(next) => {
                due_occurrences_are_recent(
                    expression,
                    zone,
                    next,
                    Some(local_time(zone, next)),
                    now,
                    (lookups - 1) as nat,
                );
            },
        }
    }
}

/// An occurrence that is found matches the expression, its wall-clock time is not a repeated one,
/// and it is not that of the last occurrence.
pub proof fn a_found_occurrence_is_valid(
    expression: Seq<char>,
    zone: Seq<char>,
    cursor: int,
    last_local: Option<int>,
    tries: nat,
)
    ensures
        search(expression, zone, cursor, last_local, tries) matches Ok(next) ==> is_instant(next)
            && !is_repeated(zone, next) && cron_matches(expression, zone, next) == Ok::<
            bool,
            Seq<char>,
        >(true) && last_local != Some(local_time(zone, next)),
    decreases tries,
{
    if tries > 0 && is_instant(cursor) {
        match cron_next(expression, zone, cursor) {
            Ok(next) => a_found_occurrence_is_valid(
                expression,
                zone,
                next,
                last_local,
                (tries - 1) as nat,
            ),
            Err(_) => {},
        }
    }
}

proof fn lemma_at(s: Seq<char>, stamp: Seq<char>)
    requires
        s == "@at "@ + stamp,
    ensures
        s != "@reboot"@,
        text::begins_with(s, "@at "@),
        s.skip("@at "@.len() as int) == stamp,
{
    reveal_strlit("@at ");
    reveal_strlit("@reboot");
    assert(s[1] == 'a' && "@reboot"@[1] == 'r');
    assert(s.subrange(0, 4) == "@at "@);
    assert(s.skip(4) == stamp);
}

/// A schedule that begins with the word for one time is read as the instant that the timestamp behind
/// it reads as, and refused with what is wrong with the timestamp where it reads as none.
pub proof fn a_timestamp_is_read_as_it_stands(value: Seq<char>, stamp: Seq<char>)
    requires
        text::trimmed(value) == "@at "@ + stamp,
    ensures
        rfc3339_instant(text::trimmed(stamp)) matches Ok(t) ==> read_schedule(value) == Ok::<
            ScheduleView,
            ScheduleFault,
        >(ScheduleView::At(t)),
        rfc3339_instant(text::trimmed(stamp)) matches Err(e) ==> read_schedule(value) == Err::<
            ScheduleView,
            ScheduleFault,
        >(ScheduleFault::At(e)),
{
    lemma_at(text::trimmed(value), stamp);
}

/// A cron expression of five fields that the reader of expressions accepts is taken as it stands.
pub proof fn an_expression_is_taken_as_it_stands(value: Seq<char>, s: Seq<char>)
    requires
        s == text::trimmed(value),
        s.len() > 0 && s[0] != '@',
    ensures
        read_schedule(value) matches Ok(v) ==> v == ScheduleView::Cron(s) && cron_fault(s) is None,
        field_count(s, s.len()) == 5 && cron_fault(s) is None ==> read_schedule(value) is Ok,
        field_count(s, s.len()) != 5 ==> read_schedule(value) is Err,
{
    reveal_strlit("@at ");
    reveal_strlit("@reboot");
    reveal_strlit("@hourly");
    reveal_strlit("@daily");
    reveal_strlit("@weekly");
    reveal_strlit("@monthly");
    reveal_strlit("@yearly");
    reveal_strlit("@annually");
    assert("@at "@[0] == '@' && "@reboot"@[0] == '@' && "@hourly"@[0] == '@');
    assert("@daily"@[0] == '@' && "@weekly"@[0] == '@' && "@monthly"@[0] == '@');
    assert("@yearly"@[0] == '@' && "@annually"@[0] == '@');
    if text::begins_with(s, "@at "@) {
        assert(s.subrange(0, 4)[0] == s[0]);
    }
}

/// White space parts the fields of a schedule: what stands before it and what stands behind it are
/// counted apart, and what holds none is one field.
pub proof fn white_space_parts_the_fields(a: Seq<char>, white: char, b: Seq<char>)
    requires
        text::is_white(white),
    ensures
        field_count(a.push(white) + b, (a.push(white) + b).len()) == field_count(a, a.len())
            + field_count(b, b.len()),
        a.len() > 0 && (forall|i: int| 0 <= i < a.len() ==> !text::is_white(#[trigger] a[i]))
            ==> field_count(a, a.len()) == 1,
        field_count(Seq::empty(), 0) == 0,
{
    let s = a.push(white) + b;
    lemma_fields_prefix(a, s, a.len());
    assert(s[a.len() as int] == white);
    assert(field_count(s, a.len() + 1) == field_count(a, a.len()));
    lemma_fields_behind(a.push(white), b, b.len());
    if a.len() > 0 && (forall|i: int| 0 <= i < a.len() ==> !text::is_white(#[trigger] a[i])) {
        lemma_one_field(a, a.len());
    }
}

proof fn lemma_fields_prefix(a: Seq<char>, s: Seq<char>, n: nat)
    requires
        n <= a.len(),
        n <= s.len(),
        forall|i: int| 0 <= i < n ==> a[i] == s[i],
    ensures
        field_count(a, n) == field_count(s, n),
    decreases n,
{
    if n > 0 {
        lemma_fields_prefix(a, s, (n - 1) as nat);
        assert(a[n - 1] == s[n - 1]);
        if n > 1 {
            assert(a[n - 2] == s[n - 2]);
        }
    }
}

proof fn lemma_fields_behind(a: Seq<char>, b: Seq<char>, n: nat)
    requires
        n <= b.len(),
        a.len() > 0,
        text::is_white(a.last()),
    ensures
        field_count(a + b, a.len() + n) == field_count(a + b, a.len()) + field_count(b, n),
    decreases n,
{
    if n > 0 {
        lemma_fields_behind(a, b, (n - 1) as nat);
        assert((a + b)[a.len() + n - 1] == b[n - 1]);
        if n > 1 {
            assert((a + b)[a.len() + n - 2] == b[n - 2]);
        } else {
            assert((a + b)[a.len() - 1] == a.last());
        }
    }
}

proof fn lemma_one_field(a: Seq<char>, n: nat)
    requires
        0 < n <= a.len(),
        forall|i: int| 0 <= i < a.len() ==> !text::is_white(#[trigger] a[i]),
    ensures
        field_count(a, n) == 1,
    decreases n,
{
    assert(!text::is_white(a[n - 1]));
    if n > 1 {
        assert(!text::is_white(a[n - 2]));
        lemma_one_field(a, (n - 1) as nat);
    } else {
        assert(field_count(a, 0) == 0);
    }
}

/// A job for one time is due in a round exactly where its time came after the round before and not
/// after this one, and is not more than sixty whole seconds past; nothing else is due for it.
pub proof fn a_one_time_job_is_due_when_its_time_has_come(
    value: Seq<char>,
    stamp: Seq<char>,
    t: int,
    zone: Seq<char>,
    after: int,
    now: int,
)
    requires
        text::trimmed(value) == "@at "@ + stamp,
        rfc3339_instant(text::trimmed(stamp)) == Ok::<int, Seq<char>>(t),
    ensures
        due_of(value, zone, after, now) matches Ok(due) && {
            &&& due.contains(t) <==> after < t <= now && now - t < 61_000_000_000
            &&& due.len() <= 1
            &&& forall|i: int| 0 <= i < due.len() ==> #[trigger] due[i] == t
        },
{
    a_timestamp_is_read_as_it_stands(value, stamp);
    let one = seq![t];
    assert(one[0] == t);
    assert(one.contains(t));
}

/// Where rounds follow each other without a gap, each at most a minute after the one before, a job for
/// one time that lies between the first and the last is due in exactly one of them.
pub proof fn rounds_without_a_gap_find_a_job_once(
    value: Seq<char>,
    stamp: Seq<char>,
    t: int,
    zone: Seq<char>,
    rounds: Seq<int>,
)
    requires
        text::trimmed(value) == "@at "@ + stamp,
        rfc3339_instant(text::trimmed(stamp)) == Ok::<int, Seq<char>>(t),
        rounds.len() > 1,
        forall|k: int, l: int| 0 <= k <= l < rounds.len() ==> rounds[k] <= rounds[l],
        forall|k: int|
            0 <= k < rounds.len() - 1 ==> rounds[k + 1] - #[trigger] rounds[k] <= 60_000_000_000,
        rounds[0] < t <= rounds.last(),
    ensures
        exists|k: int|
            0 <= k < rounds.len() - 1 && #[trigger] is_due_in(value, zone, rounds, k, t),
        forall|k: int, l: int|
            0 <= k < rounds.len() - 1 && 0 <= l < rounds.len() - 1 && #[trigger] is_due_in(
                value,
                zone,
                rounds,
                k,
                t,
            ) && #[trigger] is_due_in(value, zone, rounds, l, t) ==> k == l,
{
    let k = lemma_round_of(rounds, t, rounds.len() - 1);
    a_one_time_job_is_due_when_its_time_has_come(
        value,
        stamp,
        t,
        zone,
        rounds[k],
        rounds[k + 1],
    );
    assert(is_due_in(value, zone, rounds, k, t));
    assert forall|k: int, l: int|
        0 <= k < rounds.len() - 1 && 0 <= l < rounds.len() - 1 && #[trigger] is_due_in(
            value,
            zone,
            rounds,
            k,
            t,
        ) && #[trigger] is_due_in(value, zone, rounds, l, t) implies k == l by {
        a_one_time_job_is_due_when_its_time_has_come(
            value,
            stamp,
            t,
            zone,
            rounds[k],
            rounds[k + 1],
        );
        a_one_time_job_is_due_when_its_time_has_come(
            value,
            stamp,
            t,
            zone,
            rounds[l],
            rounds[l + 1],
        );
        if k < l {
            assert(rounds[k + 1] <= rounds[l]);
        } else if l < k {
            assert(rounds[l + 1] <= rounds[k]);
        }
    }
}

/// Whether an instant is due in the round after the `k`th.
pub open spec fn is_due_in(
    value: Seq<char>,
    zone: Seq<char>,
    rounds: Seq<int>,
    k: int,
    t: int,
) -> bool {
    due_of(value, zone, rounds[k], rounds[k + 1]) matches Ok(due) && due.contains(t)
}

proof fn lemma_round_of(rounds: Seq<int>, t: int, n: int) -> (k: int)
    requires
        0 < n < rounds.len(),
        rounds[0] < t <= rounds[n],
    ensures
        0 <= k < n,
        rounds[k] < t <= rounds[k + 1],
    decreases n,
{
    if rounds[n - 1] < t {
        n - 1
    } else {
        lemma_round_of(rounds, t, n - 1)
    }
}

/// A job for one time is still to come exactly before its time.
pub proof fn a_one_time_job_comes_before_its_time(
    value: Seq<char>,
    stamp: Seq<char>,
    t: int,
    zone: Seq<char>,
    after: int,
    count: nat,
)
    requires
        text::trimmed(value) == "@at "@ + stamp,
        rfc3339_instant(text::trimmed(stamp)) == Ok::<int, Seq<char>>(t),
        zone_known(zone),
    ensures
        next_of(value, zone, after, count) matches Ok(next) && (t > after ==> next == seq![t]) && (t
            <= after ==> next.len() == 0),
{
    a_timestamp_is_read_as_it_stands(value, stamp);
}

/// The first instant that the reader of expressions finds is taken where it matches, its wall-clock
/// time does not come twice and is not that of the last occurrence; where it is not taken, the search
/// goes on behind it.
pub proof fn the_first_valid_instant_is_taken(
    expression: Seq<char>,
    zone: Seq<char>,
    cursor: int,
    last_local: Option<int>,
    tries: nat,
    next: int,
)
    requires
        tries > 0,
        is_instant(cursor),
        is_instant(next),
        cron_next(expression, zone, cursor) == Ok::<int, Seq<char>>(next),
        cron_matches(expression, zone, next) is Ok,
    ensures
        (earlier_twin(zone, next) is None || earlier_twin(zone, next) == Some(next))
            && cron_matches(expression, zone, next)->Ok_0 && last_local != Some(
            local_time(zone, next),
        ) ==> search(expression, zone, cursor, last_local, tries) == Ok::<int, OccurrenceFault>(
            next,
        ),
        !((earlier_twin(zone, next) is None || earlier_twin(zone, next) == Some(next))
            && cron_matches(expression, zone, next)->Ok_0 && last_local != Some(
            local_time(zone, next),
        )) ==> search(expression, zone, cursor, last_local, tries) == search(
            expression,
            zone,
            next,
            last_local,
            (tries - 1) as nat,
        ),
{
}

/// Occurrences that are still to come are found one behind the other, as many as are asked for.
pub proof fn occurrences_are_found_one_behind_the_other(
    expression: Seq<char>,
    zone: Seq<char>,
    cursor: int,
    last_local: Option<int>,
    count: nat,
)
    requires
        count > 0,
    ensures
        upcoming(expression, zone, cursor, last_local, count) matches Ok(found) ==> {
            &&& found.len() == count
            &&& search(expression, zone, cursor, last_local, 128) == Ok::<int, OccurrenceFault>(
                found[0],
            )
            &&& upcoming(
                expression,
                zone,
                found[0],
                Some(local_time(zone, found[0])),
                (count - 1) as nat,
            ) == Ok::<Seq<int>, OccurrenceFault>(found.skip(1))
        },
    decreases count,
{
    if let Ok(next) = search(expression, zone, cursor, last_local, CANDIDATES as nat) {
        if count > 1 {
            occurrences_are_found_one_behind_the_other(
                expression,
                zone,
                next,
                Some(local_time(zone, next)),
                (count - 1) as nat,
            );
        }
        if let Ok(rest) = upcoming(
            expression,
            zone,
            next,
            Some(local_time(zone, next)),
            (count - 1) as nat,
        ) {
            assert((seq![next] + rest).skip(1) == rest);
        }
    }
}

/// A repeated job is due where the first occurrence behind the round before, or behind the time that
/// is not too late yet, has come; what has not come is not due.
pub proof fn a_repeated_job_is_due_when_its_time_has_come(
    value: Seq<char>,
    expression: Seq<char>,
    zone: Seq<char>,
    after: int,
    now: int,
    next: int,
)
    requires
        read_schedule(value) == Ok::<ScheduleView, ScheduleFault>(ScheduleView::Cron(expression)),
        zone_known(zone),
        search(
            expression,
            zone,
            if after > now - 61_000_000_000 {
                after
            } else {
                now - 61_000_000_000
            },
            None,
            128,
        ) == Ok::<int, OccurrenceFault>(next),
    ensures
        next > now ==> due_of(value, zone, after, now) == Ok::<Seq<int>, OccurrenceFault>(
            Seq::empty(),
        ),
        next <= now && now - next < 61_000_000_000 ==> (due_of(value, zone, after, now) matches Ok(
            due,
        ) ==> due.len() > 0 && due[0] == next),
{
}

/// A due occurrence is followed by those that are due behind it.
pub proof fn due_occurrences_follow_each_other(
    expression: Seq<char>,
    zone: Seq<char>,
    cursor: int,
    last_local: Option<int>,
    now: int,
    lookups: nat,
    next: int,
)
    requires
        lookups > 0,
        search(expression, zone, cursor, last_local, 128) == Ok::<int, OccurrenceFault>(next),
        next <= now,
        now - next < 61_000_000_000,
    ensures
        due_after(expression, zone, cursor, last_local, now, lookups) matches Ok(due) ==> {
            &&& due.len() > 0
            &&& due[0] == next
            &&& due_after(
                expression,
                zone,
                next,
                Some(local_time(zone, next)),
                now,
                (lookups - 1) as nat,
            ) == Ok::<Seq<int>, OccurrenceFault>(due.skip(1))
        },
{
    if let Ok(rest) = due_after(
        expression,
        zone,
        next,
        Some(local_time(zone, next)),
        now,
        (lookups - 1) as nat,
    ) {
        assert((seq![next] + rest).skip(1) == rest);
    }
}

/// A schedule is told in words with its zone: what `croner` says of an expression, the time of a
/// one-time job in that zone, and that a job runs at the start.
pub proof fn schedules_are_told_in_words(schedule: Seq<char>, zone: Seq<char>)
    ensures
        read_schedule(schedule) matches Ok(ScheduleView::Cron(e)) ==> description_of(schedule, zone)
            == Ok::<Seq<char>, OccurrenceFault>(cron_words(e) + " ("@ + zone + ")"@),
        (read_schedule(schedule) matches Ok(ScheduleView::At(at)) ==> zone_known(zone)
            ==> description_of(schedule, zone) == Ok::<Seq<char>, OccurrenceFault>(
            "Once at "@ + zoned_timestamp(zone, at) + " ("@ + zone + ")"@,
        )),
        (read_schedule(schedule) matches Ok(ScheduleView::At(at)) ==> !zone_known(zone)
            ==> description_of(schedule, zone) == Err::<Seq<char>, OccurrenceFault>(
            OccurrenceFault::Zone(zone),
        )),
        read_schedule(schedule) is Err ==> description_of(schedule, zone) is Err,
        read_schedule(schedule) == Ok::<ScheduleView, ScheduleFault>(ScheduleView::Reboot)
            ==> description_of(schedule, zone) is Ok,
{
}

/// The names of frequent schedules are taken for expressions, and nothing else that is no expression
/// of five fields is.
pub proof fn frequent_schedules_have_names(s: Seq<char>)
    ensures
        is_alias("@hourly"@) && is_alias("@daily"@) && is_alias("@weekly"@) && is_alias("@monthly"@)
            && is_alias("@yearly"@) && is_alias("@annually"@),
        (read_schedule(s) matches Ok(ScheduleView::Cron(e)) ==> e == text::trimmed(s) && cron_fault(
            e,
        ) is None && (is_alias(e) || field_count(e, e.len()) == 5)),
        is_alias(text::trimmed(s)) && cron_fault(text::trimmed(s)) is None ==> read_schedule(s)
            == Ok::<ScheduleView, ScheduleFault>(ScheduleView::Cron(text::trimmed(s))),
{
    reveal_strlit("@reboot");
    reveal_strlit("@at ");
    reveal_strlit("@hourly");
    reveal_strlit("@daily");
    reveal_strlit("@weekly");
    reveal_strlit("@monthly");
    reveal_strlit("@yearly");
    reveal_strlit("@annually");
    let t = text::trimmed(s);
    if is_alias(t) {
        assert(t.len() >= 6);
        assert(t != "@reboot"@) by {
            assert("@reboot"@.len() == 7 && "@reboot"@[1] == 'r');
            assert("@hourly"@[1] == 'h' && "@daily"@[1] == 'd' && "@weekly"@[1] == 'w'
                && "@monthly"@[1] == 'm' && "@yearly"@[1] == 'y' && "@annually"@[1] == 'a');
            assert("@annually"@.len() == 9);
        }
        assert(!text::begins_with(t, "@at "@)) by {
            if text::begins_with(t, "@at "@) {
                assert(t.subrange(0, 4)[2] == "@at "@[2]);
                assert(t[2] == 't');
                assert("@hourly"@[2] == 'o' && "@daily"@[2] == 'a' && "@weekly"@[2] == 'e'
                    && "@monthly"@[2] == 'o' && "@yearly"@[2] == 'e' && "@annually"@[2] == 'n');
            }
        }
    }
}

/// A one-time job is found due exactly where its time lies behind the last look, not behind the
/// present, and no more than the time of grace ago.
pub proof fn a_one_time_job_is_found_when_its_time_has_come(
    schedule: &str,
    zone: &str,
    stamp: Seq<char>,
    t: int,
    after: i128,
    now: i128,
    r: Result<Vec<i128>, OccurrenceError>,
)
    requires
        is_instant(now as int),
        call_ensures(due_schedule_occurrences, (schedule, zone, after, now), r),
        text::trimmed(schedule@) == "@at "@ + stamp,
        rfc3339_instant(text::trimmed(stamp)) == Ok::<int, Seq<char>>(t),
    ensures
        r matches Ok(due) && {
            &&& due@.len() == (if after < t <= now && now - t < 61_000_000_000 {
                1int
            } else {
                0int
            })
            &&& forall|i: int| 0 <= i < due@.len() ==> (#[trigger] due@[i]) as int == t
        },
{
    a_one_time_job_is_due_when_its_time_has_come(
        schedule@,
        stamp,
        t,
        zone@,
        after as int,
        now as int,
    );
    match r {
        Ok(due) => {
            let v = instants(due@);
            assert forall|i: int| 0 <= i < due@.len() implies (#[trigger] due@[i]) as int == t by {
                assert(v[i] == due@[i] as int);
            }
            if v.contains(t) {
                let k = choose|k: int| 0 <= k < v.len() && v[k] == t;
                assert(v.len() == 1);
            } else if v.len() > 0 {
                assert(v[0] == t);
                assert(v.contains(t));
            }
        },
        Err(_) => {},
    }
}

} // verus!
