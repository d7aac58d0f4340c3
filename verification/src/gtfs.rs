//! The static timetable: reading the official GTFS files.

use crate::calendar::{compact_date, is_date, parse_date, parsed_date, weekday, weekday_of};
use crate::domain::TransportMode;
use crate::text::{
    a_text_behind_a_separator_is_a_piece, all_digits, blanks_come_off, concat, decimal_padding,
    i64_of, is_digit, is_space, padded, parse_i64, pieces, split_on, trim, trimmed,
    two_digits_read_back,
};
use vstd::prelude::*;

verus! {

/// The official static timetable of TEC (Wallonia).
pub const TEC_GTFS_URL: &'static str =
    "https://opendata-discovery-gtfs-static.api.production.belgianmobility.io/api/gtfs/feed/tec/static";

/// Where to turn when it cannot be had: the open data portal of the operator.
pub const TEC_GTFS_URL_FALLBACK: &'static str =
    "https://opendata.tec-wl.be/Current%20GTFS/TEC-GTFS.zip";

/// What is wrong with a timetable or with a question to it.
#[derive(Debug, PartialEq, Eq)]
pub enum GtfsError {
    /// The ZIP file cannot be read.
    Zip,
    /// The ZIP file has no such entry.
    MissingEntry(String),
    /// A table cannot be read; the message says why.
    Csv(String),
    /// A table has no such column.
    MissingColumn(String),
    /// The text is no date of the form `YYYYMMDD`; the message says why.
    InvalidDate(String, String),
}

/// What is wrong, its texts as sequences.
pub enum GtfsFault {
    Zip,
    MissingEntry(Seq<char>),
    Csv(Seq<char>),
    MissingColumn(Seq<char>),
    InvalidDate(Seq<char>, Seq<char>),
}

impl View for GtfsError {
    type V = GtfsFault;

    open spec fn view(&self) -> GtfsFault {
        match self {
            GtfsError::Zip => GtfsFault::Zip,
            GtfsError::MissingEntry(name) => GtfsFault::MissingEntry(name@),
            GtfsError::Csv(message) => GtfsFault::Csv(message@),
            GtfsError::MissingColumn(name) => GtfsFault::MissingColumn(name@),
            GtfsError::InvalidDate(text, why) => GtfsFault::InvalidDate(text@, why@),
        }
    }
}

impl GtfsError {
    /// The text that tells a reader of the logs what is wrong.
    pub open spec fn text(self) -> Seq<char> {
        match self {
            GtfsError::Zip => "lecture ZIP GTFS"@,
            GtfsError::MissingEntry(name) => "entrée "@ + name@ + " absente du ZIP"@,
            GtfsError::Csv(message) => message@,
            GtfsError::MissingColumn(name) => "colonne "@ + name@ + " absente"@,
            GtfsError::InvalidDate(text, why) => "date invalide "@ + text@ + ": "@ + why@,
        }
    }

    /// The text that tells a reader of the logs what is wrong.
    pub fn message(&self) -> (r: String)
        ensures
            r@ == self.text(),
    {
        match self {
            GtfsError::Zip => "lecture ZIP GTFS".to_string(),
            GtfsError::MissingEntry(name) => {
                concat(&concat("entrée ", name), " absente du ZIP")
            },
            GtfsError::Csv(message) => message.clone(),
            GtfsError::MissingColumn(name) => concat(&concat("colonne ", name), " absente"),
            GtfsError::InvalidDate(text, why) => {
                concat(&concat(&concat("date invalide ", text), ": "), why)
            },
        }
    }
}

/// The seconds from midnight that a text `HH:MM:SS` stands for. The hours may
/// pass 24: a night trip belongs to the day on which it started.
pub open spec fn gtfs_time(s: Seq<char>) -> Option<i64> {
    let parts = pieces(trimmed(s), ':');
    if parts.len() < 3 {
        None
    } else {
        match (i64_of(parts[0]), i64_of(parts[1]), i64_of(parts[2])) {
            (Some(h), Some(m), Some(sec)) => if i64::MIN <= h * 3600 + m * 60 + sec <= i64::MAX {
                Some((h * 3600 + m * 60 + sec) as i64)
            } else {
                None
            },
            _ => None,
        }
    }
}

/// Reads a time `HH:MM:SS` as seconds from midnight. Hours past 24 are those of
/// night trips and are not refused; a sum that does not fit in an `i64` is.
pub fn parse_gtfs_time(s: &str) -> (r: Option<i64>)
    ensures
        r == gtfs_time(s@),
{
    let t = trim(s);
    let parts = split_on(&t, ':');
    assert(parts.deep_view() == pieces(trimmed(s@), ':'));
    if parts.len() < 3 {
        return None;
    }
    assert(parts.deep_view()[0] == parts@[0]@);
    assert(parts.deep_view()[1] == parts@[1]@);
    assert(parts.deep_view()[2] == parts@[2]@);
    match (parse_i64(&parts[0]), parse_i64(&parts[1]), parse_i64(&parts[2])) {
        (Some(h), Some(m), Some(sec)) => {
            let total: i128 = h as i128 * 3600 + m as i128 * 60 + sec as i128;
            if i64::MIN as i128 <= total && total <= i64::MAX as i128 {
                Some(total as i64)
            } else {
                None
            }
        },
        _ => None,
    }
}

/// How a line with a GTFS `route_type` runs.
pub open spec fn mode_of(t: i64) -> TransportMode {
    if t == 0 || t == 5 || t == 6 || t == 7 || t == 11 || t == 12 {
        TransportMode::Tram
    } else if t == 1 {
        TransportMode::Metro
    } else if t == 2 {
        TransportMode::Train
    } else {
        TransportMode::Bus
    }
}

/// How a line with a GTFS `route_type` runs.
pub fn route_type_to_mode(t: i64) -> (r: TransportMode)
    ensures
        r == mode_of(t),
{
    match t {
        0 | 5 | 6 | 7 | 11 | 12 => TransportMode::Tram,
        1 => TransportMode::Metro,
        2 => TransportMode::Train,
        _ => TransportMode::Bus,
    }
}

/// The columns of `calendar.txt`, in the order in which they are stored.
pub open spec fn calendar_column_names() -> Seq<Seq<char>> {
    seq![
        "service_id"@,
        "monday"@,
        "tuesday"@,
        "wednesday"@,
        "thursday"@,
        "friday"@,
        "saturday"@,
        "sunday"@,
        "start_date"@,
        "end_date"@,
    ]
}

/// The texts of a list of texts.
pub open spec fn texts_of(texts: Seq<&str>) -> Seq<Seq<char>> {
    texts.map_values(|t: &str| t@)
}

/// The columns of `calendar.txt`, in the order in which they are stored.
pub fn calendar_columns() -> (r: [&'static str; 10])
    ensures
        texts_of(r@) == calendar_column_names(),
{
    let columns: [&'static str; 10] = [
        "service_id",
        "monday",
        "tuesday",
        "wednesday",
        "thursday",
        "friday",
        "saturday",
        "sunday",
        "start_date",
        "end_date",
    ];
    assert(texts_of(columns@) =~= calendar_column_names());
    columns
}

/// The name of a weekday's column, from 0 for Monday.
pub open spec fn day_column(day: int) -> Seq<char> {
    if day == 0 {
        "monday"@
    } else if day == 1 {
        "tuesday"@
    } else if day == 2 {
        "wednesday"@
    } else if day == 3 {
        "thursday"@
    } else if day == 4 {
        "friday"@
    } else if day == 5 {
        "saturday"@
    } else {
        "sunday"@
    }
}

/// The weekday, from 0 for Monday, of a date `YYYYMMDD`.
pub open spec fn weekday_in(yyyymmdd: Seq<char>) -> Option<int> {
    match parsed_date(yyyymmdd) {
        Ok(t) => Some(weekday(t.0, t.1, t.2)),
        Err(_) => None,
    }
}

/// What is told of a text that is no date.
pub open spec fn date_fault(yyyymmdd: Seq<char>) -> GtfsFault {
    GtfsFault::InvalidDate(yyyymmdd, parsed_date(yyyymmdd)->Err_0)
}

/// Whether the text, where it writes a date of a year with four digits, has the
/// weekday of that date.
pub open spec fn reads_as_written(yyyymmdd: Seq<char>) -> bool {
    forall|y: int, m: int, d: int|
        is_date(y, m, d) && 0 <= y <= 9999 && yyyymmdd == #[trigger] compact_date(y, m, d)
            ==> weekday_in(yyyymmdd) == Some(weekday(y, m, d))
}

/// The weekday, from 0 for Monday, of a date `YYYYMMDD`.
pub(crate) fn weekday_number(yyyymmdd: &str) -> (r: Result<u32, GtfsError>)
    ensures
        r is Ok <==> weekday_in(yyyymmdd@) is Some,
        r matches Ok(d) ==> d < 7 && d == weekday_in(yyyymmdd@)->0,
        r matches Err(e) ==> e@ == date_fault(yyyymmdd@),
        reads_as_written(yyyymmdd@),
{
    match parse_date(yyyymmdd) {
        Ok((year, month, day)) => Ok(weekday_of(year, month, day)),
        Err(why) => Err(GtfsError::InvalidDate(yyyymmdd.to_string(), why)),
    }
}

/// The column of a weekday, from 0 for Monday.
pub fn column_of_weekday(day: u32) -> (r: &'static str)
    requires
        day < 7,
    ensures
        r@ == day_column(day as int),
{
    match day {
        0 => "monday",
        1 => "tuesday",
        2 => "wednesday",
        3 => "thursday",
        4 => "friday",
        5 => "saturday",
        _ => "sunday",
    }
}

/// The column (`monday` to `sunday`) of the weekday of a date `YYYYMMDD`. Every
/// date of a year with four digits has one.
pub fn weekday_column(yyyymmdd: &str) -> (r: Result<&'static str, GtfsError>)
    ensures
        forall|y: int, m: int, d: int|
            is_date(y, m, d) && 0 <= y <= 9999 && yyyymmdd@ == #[trigger] compact_date(y, m, d)
                ==> (r matches Ok(c) && c@ == day_column(weekday(y, m, d))),
        r is Ok <==> weekday_in(yyyymmdd@) is Some,
        r matches Ok(c) ==> c@ == day_column(weekday_in(yyyymmdd@)->0),
        r matches Err(e) ==> e@ == date_fault(yyyymmdd@),
{
    match weekday_number(yyyymmdd) {
        Ok(day) => Ok(column_of_weekday(day)),
        Err(e) => Err(e),
    }
}

/// A path under another: with a slash between, where there is none yet.
pub open spec fn path_under(base: Seq<char>, part: Seq<char>) -> Seq<char> {
    if base.len() == 0 || base.last() == '/' {
        base + part
    } else {
        base + seq!['/'] + part
    }
}

fn path_join(base: &str, part: &str) -> (r: String)
    ensures
        r@ == path_under(base@, part@),
{
    let chars = crate::text::chars_of(base);
    if chars.len() == 0 || chars[chars.len() - 1] == '/' {
        concat(base, part)
    } else {
        proof {
            reveal_strlit("/");
            assert("/"@ =~= seq!['/']);
        }
        concat(&concat(base, "/"), part)
    }
}

/// Where the ZIP file is kept, under the data folder.
pub fn gtfs_cache_path(data_dir: &str) -> (r: String)
    ensures
        r@ == path_under(path_under(path_under(data_dir@, "raw"@), "gtfs"@), "tec-gtfs.zip"@),
{
    path_join(&path_join(&path_join(data_dir, "raw"), "gtfs"), "tec-gtfs.zip")
}

/// How many rows of each table were loaded.
#[derive(Debug, Clone, Copy, PartialEq, Eq, Structural)]
pub struct GtfsStats {
    pub stops: usize,
    pub routes: usize,
    pub trips: usize,
    pub stop_times: usize,
    pub calendar: usize,
    pub calendar_dates: usize,
}

impl Default for GtfsStats {
    fn default() -> (r: Self)
        ensures
            r == (GtfsStats {
                stops: 0,
                routes: 0,
                trips: 0,
                stop_times: 0,
                calendar: 0,
                calendar_dates: 0,
            }),
    {
        GtfsStats {
            stops: 0,
            routes: 0,
            trips: 0,
            stop_times: 0,
            calendar: 0,
            calendar_dates: 0,
        }
    }
}

// Getting the file.

/// How an attempt to download ended: with so many bytes, or with a message.
#[derive(Debug, PartialEq, Eq)]
pub enum Download {
    Received(usize),
    Failed(String),
}

/// What follows an attempt to download.
#[derive(Debug, PartialEq, Eq)]
pub enum DownloadStep {
    /// The file is there, with so many bytes.
    Done(usize),
    /// The next source is to be tried.
    Try(String),
    /// No source is left; the message is that of the last attempt.
    GiveUp(String),
}

/// The source for attempt `attempt`, from 0.
pub open spec fn source(url: Seq<char>, attempt: int) -> Option<Seq<char>> {
    if attempt == 0 {
        Some(url)
    } else if attempt == 1 {
        Some(TEC_GTFS_URL_FALLBACK@)
    } else {
        None
    }
}

/// Why an attempt failed, if it did. An empty answer is a failure.
pub open spec fn failure_of(from: Seq<char>, outcome: Download) -> Option<Seq<char>> {
    match outcome {
        Download::Received(n) => if n == 0 {
            Some("réponse GTFS vide ("@ + from + ")"@)
        } else {
            None
        },
        Download::Failed(message) => Some(message@),
    }
}

/// What follows attempt `attempt` (0 or 1) of downloading from `url`, then from
/// the fallback.
pub fn download_with_fallback(url: &str, attempt: usize, outcome: Download) -> (r: DownloadStep)
    requires
        attempt <= 1,
    ensures
        match failure_of(source(url@, attempt as int)->0, outcome) {
            None => outcome matches Download::Received(n) && r == DownloadStep::Done(n),
            Some(message) => match source(url@, attempt + 1) {
                Some(next) => r matches DownloadStep::Try(u) && u@ == next,
                None => r matches DownloadStep::GiveUp(m) && m@ == message,
            },
        },
{
    let from = if attempt == 0 {
        url
    } else {
        TEC_GTFS_URL_FALLBACK
    };
    let message = match outcome {
        Download::Received(n) => {
            if n > 0 {
                return DownloadStep::Done(n);
            }
            concat(&concat("réponse GTFS vide (", from), ")")
        },
        Download::Failed(message) => message,
    };
    if attempt == 0 {
        DownloadStep::Try(TEC_GTFS_URL_FALLBACK.to_string())
    } else {
        DownloadStep::GiveUp(message)
    }
}

/// A time as hours, minutes and seconds of at least two digits each.
pub open spec fn time_text(hours: nat, minutes: nat, seconds: nat) -> Seq<char> {
    decimal_padding(hours, 2) + seq![':'] + padded(minutes, 2) + seq![':'] + padded(seconds, 2)
}

/// Reading a time undoes writing it, whatever blanks stand around it: hours past
/// 24 stand for as many seconds as any others.
pub proof fn a_written_time_reads_back(
    hours: nat,
    minutes: nat,
    seconds: nat,
    before: Seq<char>,
    after: Seq<char>,
)
    requires
        minutes < 60,
        seconds < 60,
        hours * 3600 + minutes * 60 + seconds <= i64::MAX,
        forall|i: int| 0 <= i < before.len() ==> is_space(#[trigger] before[i]),
        forall|i: int| 0 <= i < after.len() ==> is_space(#[trigger] after[i]),
    ensures
        gtfs_time(before + time_text(hours, minutes, seconds) + after) == Some(
            (hours * 3600 + minutes * 60 + seconds) as i64,
        ),
{
    let h = decimal_padding(hours, 2);
    let m = padded(minutes, 2);
    let s = padded(seconds, 2);
    let text = time_text(hours, minutes, seconds);
    two_digits_read_back(hours);
    two_digits_read_back(minutes);
    two_digits_read_back(seconds);
    lemma_no_colon(h);
    lemma_no_colon(m);
    lemma_no_colon(s);
    assert(text[0] == h[0] && is_digit(h[0]));
    assert(text.last() == s[1] && is_digit(s[1]));
    blanks_come_off(before, text, after);
    a_text_behind_a_separator_is_a_piece(Seq::empty(), h, ':');
    a_text_behind_a_separator_is_a_piece(h, m, ':');
    let front = h.push(':') + m;
    a_text_behind_a_separator_is_a_piece(front, s, ':');
    assert(text =~= front.push(':') + s);
    assert(pieces(text, ':') =~= seq![h, m, s]);
}

proof fn lemma_no_colon(s: Seq<char>)
    requires
        all_digits(s),
    ensures
        !s.contains(':'),
{
    if s.contains(':') {
        let i = choose|i: int| 0 <= i < s.len() && s[i] == ':';
        assert(is_digit(s[i]));
    }
}

/// A later time gives more seconds than an earlier one.
pub proof fn a_later_time_gives_more_seconds(
    hours: nat,
    minutes: nat,
    seconds: nat,
    later_hours: nat,
    later_minutes: nat,
    later_seconds: nat,
)
    requires
        minutes < 60,
        seconds < 60,
        later_minutes < 60,
        later_seconds < 60,
        later_hours * 3600 + later_minutes * 60 + later_seconds <= i64::MAX,
        hours < later_hours || hours == later_hours && (minutes < later_minutes || minutes
            == later_minutes && seconds < later_seconds),
    ensures
        ({
            let early = gtfs_time(time_text(hours, minutes, seconds));
            let late = gtfs_time(time_text(later_hours, later_minutes, later_seconds));
            early is Some && late is Some && early->0 < late->0
        }),
{
    let none = Seq::<char>::empty();
    let early = time_text(hours, minutes, seconds);
    let late = time_text(later_hours, later_minutes, later_seconds);
    assert(none + early + none =~= early);
    assert(none + late + none =~= late);
    a_written_time_reads_back(hours, minutes, seconds, none, none);
    a_written_time_reads_back(later_hours, later_minutes, later_seconds, none, none);
}

} // verus!
