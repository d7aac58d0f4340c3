//! Loading the tables of a static timetable from its CSV files and from the ZIP
//! file that holds them.

use crate::domain::{text_of, Degrees};
use crate::gtfs::{
    calendar_column_names, calendar_columns, gtfs_time, parse_gtfs_time, texts_of, GtfsError,
    GtfsFault, GtfsStats,
};
use crate::text::{i64_of, parse_i64, same_text};
use std::io::BufReader;
use vstd::prelude::*;

verus! {

/// Whether the `zip` crate takes the bytes for a ZIP file.
pub uninterp spec fn is_zip(zip: Seq<u8>) -> bool;

/// The header of the CSV text under a name in a ZIP file, as the `csv` crate
/// reads it from the entry that the `zip` crate unpacks, or the message with
/// which it stops. None where the `zip` crate finds no such entry.
pub uninterp spec fn entry_header(zip: Seq<u8>, name: Seq<char>) -> Option<
    Result<Seq<Seq<char>>, Seq<char>>,
>;

/// The records below that header, all of them, or the message with which the
/// `csv` crate stops at the first that it cannot read. None where the `zip`
/// crate finds no such entry.
pub uninterp spec fn entry_body(zip: Seq<u8>, name: Seq<char>) -> Option<
    Result<Seq<Seq<Seq<char>>>, Seq<char>>,
>;

/// Some texts, or a message, as sequences, where there are any.
pub open spec fn header_of(r: Option<Result<Vec<String>, String>>) -> Option<
    Result<Seq<Seq<char>>, Seq<char>>,
> {
    match r {
        Some(Ok(v)) => Some(Ok(v.deep_view())),
        Some(Err(message)) => Some(Err(message@)),
        None => None,
    }
}

/// Some records, or a message, as sequences, where there are any.
pub open spec fn body_of(r: Option<Result<Vec<Vec<String>>, String>>) -> Option<
    Result<Seq<Seq<Seq<char>>>, Seq<char>>,
> {
    match r {
        Some(Ok(v)) => Some(Ok(v.deep_view())),
        Some(Err(message)) => Some(Err(message@)),
        None => None,
    }
}

/// Tests whether the bytes are a ZIP file.
///
/// Calls `zip::ZipArchive::new`, which reads the directory of the file. The
/// result depends on the bytes alone.
#[verifier::external_body]
fn opens_as_zip(zip: &[u8]) -> (r: bool)
    ensures
        r == is_zip(zip@),
{
    zip::ZipArchive::new(std::io::Cursor::new(zip)).is_ok()
}

/// Reads the header of a CSV text in a ZIP file.
///
/// Calls `csv::Reader::headers` on the entry that `zip::ZipArchive::by_name`
/// finds, which is unpacked as it is read. The result depends on the bytes and on
/// the name alone, and so does the message of a failure, which is how the `csv`
/// crate shows its error, or that of the entry.
#[verifier::external_body]
fn read_header(zip: &[u8], name: &str) -> (r: Option<Result<Vec<String>, String>>)
    ensures
        header_of(r) == entry_header(zip@, name@),
{
    let mut archive = zip::ZipArchive::new(std::io::Cursor::new(zip)).ok()?;
    let entry = BufReader::with_capacity(1_048_576, archive.by_name(name).ok()?);
    let mut reader = csv::ReaderBuilder::new().from_reader(entry);
    let header = reader.headers().map(|h| h.iter().map(|f| f.to_string()).collect());
    Some(header.map_err(|e| e.to_string()))
}

/// Reads the records of a CSV text in a ZIP file, all of them.
///
/// Calls `csv::Reader::records` on the entry that `zip::ZipArchive::by_name`
/// finds, which is unpacked as it is read. The result depends on the bytes and on
/// the name alone, and so does the message of a failure, which is how the `csv`
/// crate shows its error, or that of the entry.
#[verifier::external_body]
fn read_body(zip: &[u8], name: &str) -> (r: Option<Result<Vec<Vec<String>>, String>>)
    ensures
        body_of(r) == entry_body(zip@, name@),
{
    let mut archive = zip::ZipArchive::new(std::io::Cursor::new(zip)).ok()?;
    let entry = BufReader::with_capacity(1_048_576, archive.by_name(name).ok()?);
    let mut reader = csv::ReaderBuilder::new().from_reader(entry);
    let records = reader.records().map(|r| r.map(|r| r.iter().map(|f| f.to_string()).collect()));
    let all = records.collect::<Result<Vec<Vec<String>>, csv::Error>>();
    Some(all.map_err(|e| e.to_string()))
}

/// The place of the first column of that name.
pub open spec fn column(header: Seq<Seq<char>>, name: Seq<char>) -> Option<int>
    decreases header.len(),
{
    if header.len() == 0 {
        None
    } else {
        match column(header.drop_last(), name) {
            Some(i) => Some(i),
            None => if header.last() == name {
                Some(header.len() - 1)
            } else {
                None
            },
        }
    }
}

proof fn lemma_column_stays(header: Seq<Seq<char>>, name: Seq<char>, n: int)
    requires
        0 <= n <= header.len(),
        column(header.take(n), name) is Some,
    ensures
        column(header, name) == column(header.take(n), name),
    decreases header.len(),
{
    if n == header.len() {
        assert(header.take(n) =~= header);
    } else {
        assert(header.drop_last().take(n) =~= header.take(n));
        lemma_column_stays(header.drop_last(), name, n);
    }
}

/// A column is found where its name stands, and only where it does.
pub proof fn a_column_is_where_its_name_stands(header: Seq<Seq<char>>, name: Seq<char>)
    ensures
        column(header, name) matches Some(i) ==> 0 <= i < header.len() && header[i] == name,
        column(header, name) is None ==> forall|k: int|
            0 <= k < header.len() ==> #[trigger] header[k] != name,
    decreases header.len(),
{
    if header.len() > 0 {
        a_column_is_where_its_name_stands(header.drop_last(), name);
        if column(header, name) is None {
            assert forall|k: int| 0 <= k < header.len() implies #[trigger] header[k] != name by {
                if k < header.len() - 1 {
                    assert(header.drop_last()[k] == header[k]);
                }
            }
        }
    }
}

/// A place, if any, as an integer.
pub open spec fn place(i: Option<usize>) -> Option<int> {
    match i {
        Some(i) => Some(i as int),
        None => None,
    }
}

/// The place of a column, where the header has it.
fn find_column(header: &[String], name: &str) -> (r: Option<usize>)
    ensures
        place(r) == column(header.deep_view(), name@),
        r matches Some(i) ==> i < header@.len(),
{
    let ghost h = header.deep_view();
    let mut i: usize = 0;
    assert(h.take(0) =~= Seq::<Seq<char>>::empty());
    while i < header.len()
        invariant
            0 <= i <= header@.len(),
            h == header.deep_view(),
            column(h.take(i as int), name@) is None,
        decreases header@.len() - i,
    {
        proof {
            assert(h.take(i + 1).drop_last() =~= h.take(i as int));
            assert(h.take(i + 1).last() == header@[i as int]@);
        }
        if same_text(&header[i], name) {
            proof {
                lemma_column_stays(h, name@, i + 1);
            }
            return Some(i);
        }
        i = i + 1;
    }
    assert(h.take(h.len() as int) =~= h);
    None
}

/// The place of a column that has to be there.
pub fn header_index(header: &[String], col: &str) -> (r: Result<usize, GtfsError>)
    ensures
        r is Ok <==> column(header.deep_view(), col@) is Some,
        r matches Ok(i) ==> i < header@.len() && i == column(header.deep_view(), col@)->0,
        r matches Err(e) ==> e@ == GtfsFault::MissingColumn(col@),
{
    match find_column(header, col) {
        Some(i) => Ok(i),
        None => Err(GtfsError::MissingColumn(col.to_string())),
    }
}

/// The first of some columns that the header lacks.
pub open spec fn first_missing(header: Seq<Seq<char>>, needed: Seq<Seq<char>>) -> Option<Seq<char>>
    decreases needed.len(),
{
    if needed.len() == 0 {
        None
    } else if column(header, needed[0]) is None {
        Some(needed[0])
    } else {
        first_missing(header, needed.drop_first())
    }
}

/// Tests that the header has all columns that are needed.
fn need_columns(header: &[String], needed: &[&str]) -> (r: Result<(), GtfsError>)
    ensures
        r is Ok <==> first_missing(header.deep_view(), texts_of(needed@)) is None,
        r matches Err(e) ==> e@ == GtfsFault::MissingColumn(
            first_missing(header.deep_view(), texts_of(needed@))->0,
        ),
{
    let ghost h = header.deep_view();
    let ghost names = texts_of(needed@);
    let mut i: usize = 0;
    assert(names.skip(0) =~= names);
    while i < needed.len()
        invariant
            0 <= i <= needed@.len(),
            h == header.deep_view(),
            names == texts_of(needed@),
            first_missing(h, names) == first_missing(h, names.skip(i as int)),
        decreases needed@.len() - i,
    {
        proof {
            assert(names.skip(i as int)[0] == needed@[i as int]@);
            assert(names.skip(i as int).drop_first() =~= names.skip(i + 1));
        }
        if let Err(e) = header_index(header, needed[i]) {
            return Err(e);
        }
        i = i + 1;
    }
    Ok(())
}

/// What a record holds at a place, where it has it.
pub open spec fn cell_at(record: Seq<Seq<char>>, i: Option<int>) -> Option<Seq<char>> {
    match i {
        Some(i) => if i < record.len() {
            Some(record[i])
        } else {
            None
        },
        None => None,
    }
}

/// What a record holds in a column, where both have it.
pub open spec fn cell(header: Seq<Seq<char>>, record: Seq<Seq<char>>, name: Seq<char>) -> Option<
    Seq<char>,
> {
    cell_at(record, column(header, name))
}

/// A text, or another one where there is none.
pub open spec fn text_or(text: Option<Seq<char>>, other: Seq<char>) -> Seq<char> {
    match text {
        Some(t) => t,
        None => other,
    }
}

/// A text that is not empty.
pub open spec fn nonempty(text: Option<Seq<char>>) -> Option<Seq<char>> {
    match text {
        Some(t) => if t.len() > 0 {
            Some(t)
        } else {
            None
        },
        None => None,
    }
}

/// The integer that a text stands for, where there is a text and it does.
pub open spec fn number(text: Option<Seq<char>>) -> Option<i64> {
    match text {
        Some(t) => i64_of(t),
        None => None,
    }
}

/// An integer, or another one where there is none.
pub open spec fn number_or(n: Option<i64>, other: i64) -> i64 {
    match n {
        Some(n) => n,
        None => other,
    }
}

/// The seconds from midnight, where there is a text and it is a time.
pub open spec fn time_in(text: Option<Seq<char>>) -> Option<i64> {
    match text {
        Some(t) => gtfs_time(t),
        None => None,
    }
}

/// Reads a cell of a record.
fn get(record: &Vec<String>, i: Option<usize>) -> (r: Option<&String>)
    ensures
        r is Some <==> cell_at(record.deep_view(), place(i)) is Some,
        r matches Some(t) ==> t@ == cell_at(record.deep_view(), place(i))->0,
{
    match i {
        Some(i) => {
            if i < record.len() {
                assert(record.deep_view()[i as int] == record@[i as int]@);
                Some(&record[i])
            } else {
                None
            }
        },
        None => None,
    }
}

fn get_or(record: &Vec<String>, i: Option<usize>, other: &str) -> (r: String)
    ensures
        r@ == text_or(cell_at(record.deep_view(), place(i)), other@),
{
    match get(record, i) {
        Some(t) => t.clone(),
        None => other.to_string(),
    }
}

fn get_nonempty(record: &Vec<String>, i: Option<usize>) -> (r: Option<String>)
    ensures
        text_of(r) == nonempty(cell_at(record.deep_view(), place(i))),
{
    match get(record, i) {
        Some(t) => {
            if t.as_str().is_empty() {
                None
            } else {
                Some(t.clone())
            }
        },
        None => None,
    }
}

fn get_number(record: &Vec<String>, i: Option<usize>) -> (r: Option<i64>)
    ensures
        r == number(cell_at(record.deep_view(), place(i))),
{
    match get(record, i) {
        Some(t) => parse_i64(t),
        None => None,
    }
}

fn get_number_or(record: &Vec<String>, i: Option<usize>, other: i64) -> (r: i64)
    ensures
        r == number_or(number(cell_at(record.deep_view(), place(i))), other),
{
    match get_number(record, i) {
        Some(n) => n,
        None => other,
    }
}

fn get_time(record: &Vec<String>, i: Option<usize>) -> (r: Option<i64>)
    ensures
        r == time_in(cell_at(record.deep_view(), place(i))),
{
    match get(record, i) {
        Some(t) => parse_gtfs_time(t),
        None => None,
    }
}

/// The files of a timetable that are loaded.
#[derive(Debug, Clone, Copy, PartialEq, Eq, Structural)]
pub enum GtfsFile {
    Stops,
    Routes,
    Trips,
    StopTimes,
    Calendar,
    CalendarDates,
}

impl GtfsFile {
    /// The name of the file, and the columns that it has to have.
    pub open spec fn layout(self) -> (Seq<char>, Seq<Seq<char>>) {
        match self {
            GtfsFile::Stops => ("stops.txt"@, stop_columns()),
            GtfsFile::Routes => ("routes.txt"@, route_columns()),
            GtfsFile::Trips => ("trips.txt"@, trip_columns()),
            GtfsFile::StopTimes => ("stop_times.txt"@, stop_time_columns()),
            GtfsFile::Calendar => ("calendar.txt"@, calendar_column_names()),
            GtfsFile::CalendarDates => ("calendar_dates.txt"@, calendar_date_columns()),
        }
    }

    /// The name of the file.
    pub fn name(self) -> (r: &'static str)
        ensures
            r@ == self.layout().0,
    {
        match self {
            GtfsFile::Stops => "stops.txt",
            GtfsFile::Routes => "routes.txt",
            GtfsFile::Trips => "trips.txt",
            GtfsFile::StopTimes => "stop_times.txt",
            GtfsFile::Calendar => "calendar.txt",
            GtfsFile::CalendarDates => "calendar_dates.txt",
        }
    }

    /// Tests that a header has all columns that the file has to have.
    pub fn check_header(self, header: &[String]) -> (r: Result<(), GtfsError>)
        ensures
            r is Ok <==> first_missing(header.deep_view(), self.layout().1) is None,
            r matches Err(e) ==> e@ == GtfsFault::MissingColumn(
                first_missing(header.deep_view(), self.layout().1)->0,
            ),
    {
        match self {
            GtfsFile::Stops => {
                let needed: [&'static str; 4] = ["stop_id", "stop_name", "stop_lat", "stop_lon"];
                assert(texts_of(needed@) =~= stop_columns());
                need_columns(header, &needed)
            },
            GtfsFile::Routes => {
                let needed: [&'static str; 4] = [
                    "route_id",
                    "route_short_name",
                    "route_long_name",
                    "route_type",
                ];
                assert(texts_of(needed@) =~= route_columns());
                need_columns(header, &needed)
            },
            GtfsFile::Trips => {
                let needed: [&'static str; 4] = [
                    "trip_id",
                    "route_id",
                    "service_id",
                    "trip_headsign",
                ];
                assert(texts_of(needed@) =~= trip_columns());
                need_columns(header, &needed)
            },
            GtfsFile::StopTimes => {
                let needed: [&'static str; 5] = [
                    "arrival_time",
                    "departure_time",
                    "stop_id",
                    "stop_sequence",
                    "trip_id",
                ];
                assert(texts_of(needed@) =~= stop_time_columns());
                need_columns(header, &needed)
            },
            GtfsFile::Calendar => {
                let needed = calendar_columns();
                need_columns(header, &needed)
            },
            GtfsFile::CalendarDates => {
                let needed: [&'static str; 3] = ["service_id", "date", "exception_type"];
                assert(texts_of(needed@) =~= calendar_date_columns());
                need_columns(header, &needed)
            },
        }
    }
}

/// The header and the records of a file in a ZIP file, or what is wrong with it.
/// A missing entry comes first, then a header that cannot be read, a missing
/// column, and a record that cannot be read.
pub open spec fn file_in(zip: Seq<u8>, file: (Seq<char>, Seq<Seq<char>>)) -> Result<
    (Seq<Seq<char>>, Seq<Seq<Seq<char>>>),
    GtfsFault,
> {
    match entry_header(zip, file.0) {
        None => Err(GtfsFault::MissingEntry(file.0)),
        Some(Err(message)) => Err(GtfsFault::Csv(message)),
        Some(Ok(header)) => match first_missing(header, file.1) {
            Some(name) => Err(GtfsFault::MissingColumn(name)),
            None => match entry_body(zip, file.0) {
                None => Err(GtfsFault::MissingEntry(file.0)),
                Some(Err(message)) => Err(GtfsFault::Csv(message)),
                Some(Ok(records)) => Ok((header, records)),
            },
        },
    }
}

/// A table as it was read.
struct Table {
    header: Vec<String>,
    records: Vec<Vec<String>>,
}

fn read_table(zip: &[u8], file: GtfsFile) -> (r: Result<Table, GtfsError>)
    ensures
        r is Ok <==> file_in(zip@, file.layout()) is Ok,
        r matches Ok(t) ==> (t.header.deep_view(), t.records.deep_view()) == file_in(
            zip@,
            file.layout(),
        )->Ok_0,
        r matches Err(e) ==> e@ == file_in(zip@, file.layout())->Err_0,
{
    let header = match read_header(zip, file.name()) {
        Some(Ok(header)) => header,
        Some(Err(message)) => {
            return Err(GtfsError::Csv(message));
        },
        None => {
            return Err(GtfsError::MissingEntry(file.name().to_string()));
        },
    };
    if let Err(e) = file.check_header(&header) {
        return Err(e);
    }
    match read_body(zip, file.name()) {
        Some(Ok(records)) => Ok(Table { header, records }),
        Some(Err(message)) => Err(GtfsError::Csv(message)),
        None => Err(GtfsError::MissingEntry(file.name().to_string())),
    }
}

// Stops.

/// The columns that `stops.txt` has to have.
pub open spec fn stop_columns() -> Seq<Seq<char>> {
    seq!["stop_id"@, "stop_name"@, "stop_lat"@, "stop_lon"@]
}

/// A stop as `stops.txt` has it, its coordinates still texts.
#[derive(Debug)]
pub struct UnlocatedStop {
    pub stop_id: String,
    pub stop_name: String,
    pub stop_desc: Option<String>,
    pub lat: String,
    pub lon: String,
    pub wheelchair: Option<i64>,
    pub zone_id: Option<String>,
    pub parent_station: Option<String>,
}

/// Whether `s` is the stop that a record of `stops.txt` tells of.
pub open spec fn is_stop(s: UnlocatedStop, h: Seq<Seq<char>>, record: Seq<Seq<char>>) -> bool {
    &&& s.stop_id@ == text_or(cell(h, record, "stop_id"@), ""@)
    &&& s.stop_name@ == text_or(cell(h, record, "stop_name"@), ""@)
    &&& text_of(s.stop_desc) == nonempty(cell(h, record, "stop_desc"@))
    &&& s.lat@ == text_or(cell(h, record, "stop_lat"@), "0"@)
    &&& s.lon@ == text_or(cell(h, record, "stop_lon"@), "0"@)
    &&& s.wheelchair == number(nonempty(cell(h, record, "wheelchair_boarding"@)))
    &&& text_of(s.zone_id) == nonempty(cell(h, record, "zone_id"@))
    &&& text_of(s.parent_station) == nonempty(cell(h, record, "parent_station"@))
}

/// The stops that the records of `stops.txt` tell of, one each, in their order.
pub fn stop_rows(header: &[String], records: &[Vec<String>]) -> (r: Vec<UnlocatedStop>)
    ensures
        r@.len() == records@.len(),
        forall|i: int|
            0 <= i < r@.len() ==> is_stop(
                #[trigger] r@[i],
                header.deep_view(),
                records.deep_view()[i],
            ),
{
    let i_id = find_column(header, "stop_id");
    let i_name = find_column(header, "stop_name");
    let i_desc = find_column(header, "stop_desc");
    let i_lat = find_column(header, "stop_lat");
    let i_lon = find_column(header, "stop_lon");
    let i_wheel = find_column(header, "wheelchair_boarding");
    let i_zone = find_column(header, "zone_id");
    let i_parent = find_column(header, "parent_station");
    let ghost h = header.deep_view();
    let mut out: Vec<UnlocatedStop> = Vec::new();
    let mut n: usize = 0;
    while n < records.len()
        invariant
            0 <= n <= records@.len(),
            out@.len() == n,
            place(i_id) == column(h, "stop_id"@),
            place(i_name) == column(h, "stop_name"@),
            place(i_desc) == column(h, "stop_desc"@),
            place(i_lat) == column(h, "stop_lat"@),
            place(i_lon) == column(h, "stop_lon"@),
            place(i_wheel) == column(h, "wheelchair_boarding"@),
            place(i_zone) == column(h, "zone_id"@),
            place(i_parent) == column(h, "parent_station"@),
            forall|i: int|
                0 <= i < n ==> is_stop(#[trigger] out@[i], h, records.deep_view()[i]),
        decreases records@.len() - n,
    {
        let record = &records[n];
        assert(records.deep_view()[n as int] == record.deep_view());
        proof {
            reveal_strlit("");
        }
        let wheelchair: Option<i64> = match get_nonempty(record, i_wheel) {
            Some(t) => parse_i64(&t),
            None => None,
        };
        out.push(
            UnlocatedStop {
                stop_id: get_or(record, i_id, ""),
                stop_name: get_or(record, i_name, ""),
                stop_desc: get_nonempty(record, i_desc),
                lat: get_or(record, i_lat, "0"),
                lon: get_or(record, i_lon, "0"),
                wheelchair,
                zone_id: get_nonempty(record, i_zone),
                parent_station: get_nonempty(record, i_parent),
            },
        );
        n = n + 1;
    }
    out
}

/// Loads `stops.txt` from a ZIP file.
pub fn load_stops(zip: &[u8]) -> (r: Result<Vec<UnlocatedStop>, GtfsError>)
    ensures
        r is Ok <==> file_in(zip@, GtfsFile::Stops.layout()) is Ok,
        r matches Ok(rows) ==> {
            let (h, records) = file_in(zip@, GtfsFile::Stops.layout())->Ok_0;
            &&& rows@.len() == records.len()
            &&& forall|i: int| 0 <= i < rows@.len() ==> is_stop(#[trigger] rows@[i], h, records[i])
        },
        r matches Err(e) ==> e@ == file_in(zip@, GtfsFile::Stops.layout())->Err_0,
{
    match read_table(zip, GtfsFile::Stops) {
        Ok(t) => Ok(stop_rows(&t.header, &t.records)),
        Err(e) => Err(e),
    }
}

/// A stop as the timetable has it.
#[derive(Debug, PartialEq, Eq)]
pub struct StopRow {
    pub stop_id: String,
    pub stop_name: String,
    pub stop_desc: Option<String>,
    pub lat: Degrees,
    pub lon: Degrees,
    pub wheelchair: Option<i64>,
    pub zone_id: Option<String>,
    pub parent_station: Option<String>,
}

impl Clone for StopRow {
    fn clone(&self) -> (r: Self)
        ensures
            r == *self,
    {
        StopRow {
            stop_id: self.stop_id.clone(),
            stop_name: self.stop_name.clone(),
            stop_desc: self.stop_desc.clone(),
            lat: self.lat,
            lon: self.lon,
            wheelchair: self.wheelchair,
            zone_id: self.zone_id.clone(),
            parent_station: self.parent_station.clone(),
        }
    }
}

/// Whether a coordinate is zero, of either sign.
pub open spec fn is_zero(d: Degrees) -> bool {
    d.bits == 0 || d.bits == 0x8000_0000_0000_0000
}

/// A stop at the position that its coordinates stand for.
pub open spec fn stop_at(s: UnlocatedStop, position: (Degrees, Degrees)) -> StopRow {
    StopRow {
        stop_id: s.stop_id,
        stop_name: s.stop_name,
        stop_desc: s.stop_desc,
        lat: position.0,
        lon: position.1,
        wheelchair: s.wheelchair,
        zone_id: s.zone_id,
        parent_station: s.parent_station,
    }
}

/// The stops at their positions, without those at latitude 0 and longitude 0: a
/// stop there has no position.
pub open spec fn located(
    stops: Seq<UnlocatedStop>,
    positions: Seq<(Degrees, Degrees)>,
) -> Seq<StopRow> {
    Seq::new(stops.len(), |i: int| stop_at(stops[i], positions[i])).filter(
        |s: StopRow| !(is_zero(s.lat) && is_zero(s.lon)),
    )
}

/// Puts stops at the positions that their coordinates stand for, and drops
/// those without a position.
pub fn locate_stops(stops: &[UnlocatedStop], positions: &[(Degrees, Degrees)]) -> (r: Vec<StopRow>)
    requires
        stops@.len() == positions@.len(),
    ensures
        r@ == located(stops@, positions@),
{
    let ghost all = Seq::new(stops@.len(), |i: int| stop_at(stops@[i], positions@[i]));
    let ghost p = |s: StopRow| !(is_zero(s.lat) && is_zero(s.lon));
    let mut out: Vec<StopRow> = Vec::new();
    let mut i: usize = 0;
    proof {
        reveal(Seq::filter);
        assert(all.take(0) =~= Seq::<StopRow>::empty());
    }
    while i < stops.len()
        invariant
            0 <= i <= stops@.len(),
            stops@.len() == positions@.len(),
            all == Seq::new(stops@.len(), |i: int| stop_at(stops@[i], positions@[i])),
            p == (|s: StopRow| !(is_zero(s.lat) && is_zero(s.lon))),
            out@ == all.take(i as int).filter(p),
        decreases stops@.len() - i,
    {
        let s = &stops[i];
        let (lat, lon) = positions[i];
        proof {
            reveal(Seq::filter);
            assert(all.take(i + 1).drop_last() =~= all.take(i as int));
            assert(all.take(i + 1).last() == stop_at(*s, positions@[i as int]));
        }
        let at_zero = (lat.bits == 0 || lat.bits == 0x8000_0000_0000_0000) && (lon.bits == 0
            || lon.bits == 0x8000_0000_0000_0000);
        if !at_zero {
            out.push(
                StopRow {
                    stop_id: s.stop_id.clone(),
                    stop_name: s.stop_name.clone(),
                    stop_desc: s.stop_desc.clone(),
                    lat,
                    lon,
                    wheelchair: s.wheelchair,
                    zone_id: s.zone_id.clone(),
                    parent_station: s.parent_station.clone(),
                },
            );
        }
        i = i + 1;
    }
    assert(all.take(all.len() as int) =~= all);
    out
}

// The table `routes.txt`.

/// The columns that `routes.txt` has to have.
pub open spec fn route_columns() -> Seq<Seq<char>> {
    seq!["route_id"@, "route_short_name"@, "route_long_name"@, "route_type"@]
}

/// A line as the timetable has it.
#[derive(Debug, PartialEq, Eq)]
pub struct RouteRow {
    pub route_id: String,
    pub short_name: String,
    pub long_name: String,
    pub route_type: i64,
    pub color: Option<String>,
}

impl Clone for RouteRow {
    fn clone(&self) -> (r: Self)
        ensures
            r == *self,
    {
        RouteRow {
            route_id: self.route_id.clone(),
            short_name: self.short_name.clone(),
            long_name: self.long_name.clone(),
            route_type: self.route_type,
            color: self.color.clone(),
        }
    }
}

/// Whether `x` is the line that a record of `routes.txt` tells of.
pub open spec fn is_route(x: RouteRow, h: Seq<Seq<char>>, record: Seq<Seq<char>>) -> bool {
    &&& x.route_id@ == text_or(cell(h, record, "route_id"@), ""@)
    &&& x.short_name@ == text_or(cell(h, record, "route_short_name"@), ""@)
    &&& x.long_name@ == text_or(cell(h, record, "route_long_name"@), ""@)
    &&& x.route_type == number_or(number(cell(h, record, "route_type"@)), 3)
    &&& text_of(x.color) == nonempty(cell(h, record, "route_color"@))
}

/// The rows that the records of `routes.txt` give, one each, in their order.
pub fn routes_rows(header: &[String], records: &[Vec<String>]) -> (r: Vec<RouteRow>)
    ensures
        r@.len() == records.deep_view().len(),
        forall|i: int|
            0 <= i < r@.len() ==> is_route(
                #[trigger] r@[i],
                header.deep_view(),
                records.deep_view()[i],
            ),
{
    let i_route_id = find_column(header, "route_id");
    let i_short_name = find_column(header, "route_short_name");
    let i_long_name = find_column(header, "route_long_name");
    let i_route_type = find_column(header, "route_type");
    let i_color = find_column(header, "route_color");
    let ghost h = header.deep_view();
    let mut out: Vec<RouteRow> = Vec::new();
    let mut n: usize = 0;
    while n < records.len()
        invariant
            0 <= n <= records@.len(),
            place(i_route_id) == column(h, "route_id"@),
            place(i_short_name) == column(h, "route_short_name"@),
            place(i_long_name) == column(h, "route_long_name"@),
            place(i_route_type) == column(h, "route_type"@),
            place(i_color) == column(h, "route_color"@),
            out@.len() == n,
            forall|i: int|
                0 <= i < n ==> is_route(#[trigger] out@[i], h, records.deep_view()[i]),
        decreases records@.len() - n,
    {
        let record = &records[n];
        assert(records.deep_view()[n as int] == record.deep_view());
        out.push(
            RouteRow {
                route_id: get_or(record, i_route_id, ""),
                short_name: get_or(record, i_short_name, ""),
                long_name: get_or(record, i_long_name, ""),
                route_type: get_number_or(record, i_route_type, 3),
                color: get_nonempty(record, i_color),
            },
        );
        n = n + 1;
    }
    out
}

/// Loads `routes.txt` from a ZIP file.
pub fn load_routes(zip: &[u8]) -> (r: Result<Vec<RouteRow>, GtfsError>)
    ensures
        r is Ok <==> file_in(zip@, GtfsFile::Routes.layout()) is Ok,
        r matches Ok(rows) ==> {
            let (h, records) = file_in(zip@, GtfsFile::Routes.layout())->Ok_0;
            &&& rows@.len() == records.len()
            &&& forall|i: int|
                0 <= i < rows@.len() ==> is_route(#[trigger] rows@[i], h, records[i])
        },
        r matches Err(e) ==> e@ == file_in(zip@, GtfsFile::Routes.layout())->Err_0,
{
    match read_table(zip, GtfsFile::Routes) {
        Ok(t) => Ok(routes_rows(&t.header, &t.records)),
        Err(e) => Err(e),
    }
}

// The table `trips.txt`.

/// The columns that `trips.txt` has to have.
pub open spec fn trip_columns() -> Seq<Seq<char>> {
    seq!["trip_id"@, "route_id"@, "service_id"@, "trip_headsign"@]
}

/// A trip: one run of a line.
#[derive(Debug, PartialEq, Eq)]
pub struct TripRow {
    pub trip_id: String,
    pub route_id: String,
    pub service_id: String,
    pub headsign: String,
    pub direction: Option<i64>,
}

impl Clone for TripRow {
    fn clone(&self) -> (r: Self)
        ensures
            r == *self,
    {
        TripRow {
            trip_id: self.trip_id.clone(),
            route_id: self.route_id.clone(),
            service_id: self.service_id.clone(),
            headsign: self.headsign.clone(),
            direction: self.direction,
        }
    }
}

/// Whether `x` is the trip that a record of `trips.txt` tells of.
pub open spec fn is_trip(x: TripRow, h: Seq<Seq<char>>, record: Seq<Seq<char>>) -> bool {
    &&& x.trip_id@ == text_or(cell(h, record, "trip_id"@), ""@)
    &&& x.route_id@ == text_or(cell(h, record, "route_id"@), ""@)
    &&& x.service_id@ == text_or(cell(h, record, "service_id"@), ""@)
    &&& x.headsign@ == text_or(cell(h, record, "trip_headsign"@), ""@)
    &&& x.direction == number(cell(h, record, "direction_id"@))
}

/// The rows that the records of `trips.txt` give, one each, in their order.
pub fn trips_rows(header: &[String], records: &[Vec<String>]) -> (r: Vec<TripRow>)
    ensures
        r@.len() == records.deep_view().len(),
        forall|i: int|
            0 <= i < r@.len() ==> is_trip(
                #[trigger] r@[i],
                header.deep_view(),
                records.deep_view()[i],
            ),
{
    let i_trip_id = find_column(header, "trip_id");
    let i_route_id = find_column(header, "route_id");
    let i_service_id = find_column(header, "service_id");
    let i_headsign = find_column(header, "trip_headsign");
    let i_direction = find_column(header, "direction_id");
    let ghost h = header.deep_view();
    let mut out: Vec<TripRow> = Vec::new();
    let mut n: usize = 0;
    while n < records.len()
        invariant
            0 <= n <= records@.len(),
            place(i_trip_id) == column(h, "trip_id"@),
            place(i_route_id) == column(h, "route_id"@),
            place(i_service_id) == column(h, "service_id"@),
            place(i_headsign) == column(h, "trip_headsign"@),
            place(i_direction) == column(h, "direction_id"@),
            out@.len() == n,
            forall|i: int|
                0 <= i < n ==> is_trip(#[trigger] out@[i], h, records.deep_view()[i]),
        decreases records@.len() - n,
    {
        let record = &records[n];
        assert(records.deep_view()[n as int] == record.deep_view());
        out.push(
            TripRow {
                trip_id: get_or(record, i_trip_id, ""),
                route_id: get_or(record, i_route_id, ""),
                service_id: get_or(record, i_service_id, ""),
                headsign: get_or(record, i_headsign, ""),
                direction: get_number(record, i_direction),
            },
        );
        n = n + 1;
    }
    out
}

/// Loads `trips.txt` from a ZIP file.
pub fn load_trips(zip: &[u8]) -> (r: Result<Vec<TripRow>, GtfsError>)
    ensures
        r is Ok <==> file_in(zip@, GtfsFile::Trips.layout()) is Ok,
        r matches Ok(rows) ==> {
            let (h, records) = file_in(zip@, GtfsFile::Trips.layout())->Ok_0;
            &&& rows@.len() == records.len()
            &&& forall|i: int|
                0 <= i < rows@.len() ==> is_trip(#[trigger] rows@[i], h, records[i])
        },
        r matches Err(e) ==> e@ == file_in(zip@, GtfsFile::Trips.layout())->Err_0,
{
    match read_table(zip, GtfsFile::Trips) {
        Ok(t) => Ok(trips_rows(&t.header, &t.records)),
        Err(e) => Err(e),
    }
}

// The table `stop_times.txt`.

/// The columns that `stop_times.txt` has to have.
pub open spec fn stop_time_columns() -> Seq<Seq<char>> {
    seq!["arrival_time"@, "departure_time"@, "stop_id"@, "stop_sequence"@, "trip_id"@]
}

/// When a trip is at a stop, in seconds from midnight.
#[derive(Debug, PartialEq, Eq)]
pub struct StopTimeRow {
    pub trip_id: String,
    pub stop_sequence: i64,
    pub stop_id: String,
    pub arrival_secs: Option<i64>,
    pub departure_secs: Option<i64>,
}

impl Clone for StopTimeRow {
    fn clone(&self) -> (r: Self)
        ensures
            r == *self,
    {
        StopTimeRow {
            trip_id: self.trip_id.clone(),
            stop_sequence: self.stop_sequence,
            stop_id: self.stop_id.clone(),
            arrival_secs: self.arrival_secs,
            departure_secs: self.departure_secs,
        }
    }
}

/// Whether `x` is the call that a record of `stop_times.txt` tells of.
pub open spec fn is_stop_time(x: StopTimeRow, h: Seq<Seq<char>>, record: Seq<Seq<char>>) -> bool {
    &&& x.trip_id@ == text_or(cell(h, record, "trip_id"@), ""@)
    &&& Some(x.stop_sequence) == number(cell(h, record, "stop_sequence"@))
    &&& x.stop_id@ == text_or(cell(h, record, "stop_id"@), ""@)
    &&& x.arrival_secs == time_in(cell(h, record, "arrival_time"@))
    &&& x.departure_secs == time_in(cell(h, record, "departure_time"@))
}

/// Whether a record of `stop_times.txt` tells of a call: its place in the trip is
/// an integer.
pub open spec fn is_placed(h: Seq<Seq<char>>) -> spec_fn(Seq<Seq<char>>) -> bool {
    |record: Seq<Seq<char>>| number(cell(h, record, "stop_sequence"@)) is Some
}

/// The records of `stop_times.txt` that tell of a call.
pub open spec fn placed_records(
    h: Seq<Seq<char>>,
    records: Seq<Seq<Seq<char>>>,
) -> Seq<Seq<Seq<char>>> {
    records.filter(is_placed(h))
}

/// The rows that the records of `stop_times.txt` give, in their order.
pub fn stop_times_rows(header: &[String], records: &[Vec<String>]) -> (r: Vec<StopTimeRow>)
    ensures
        r@.len() == placed_records(header.deep_view(), records.deep_view()).len(),
        forall|i: int|
            0 <= i < r@.len() ==> is_stop_time(
                #[trigger] r@[i],
                header.deep_view(),
                placed_records(header.deep_view(), records.deep_view())[i],
            ),
{
    let i_trip_id = find_column(header, "trip_id");
    let i_stop_sequence = find_column(header, "stop_sequence");
    let i_stop_id = find_column(header, "stop_id");
    let i_arrival_secs = find_column(header, "arrival_time");
    let i_departure_secs = find_column(header, "departure_time");
    let ghost h = header.deep_view();
    let mut out: Vec<StopTimeRow> = Vec::new();
    let mut n: usize = 0;
    let ghost all = records.deep_view();
    proof {
        reveal(Seq::filter);
        assert(all.take(0) =~= Seq::<Seq<Seq<char>>>::empty());
    }
    while n < records.len()
        invariant
            0 <= n <= records@.len(),
            place(i_trip_id) == column(h, "trip_id"@),
            place(i_stop_sequence) == column(h, "stop_sequence"@),
            place(i_stop_id) == column(h, "stop_id"@),
            place(i_arrival_secs) == column(h, "arrival_time"@),
            place(i_departure_secs) == column(h, "departure_time"@),
            all == records.deep_view(),
            out@.len() == placed_records(h, all.take(n as int)).len(),
            forall|i: int|
                0 <= i < out@.len() ==> is_stop_time(
                    #[trigger] out@[i],
                    h,
                    placed_records(h, all.take(n as int))[i],
                ),
        decreases records@.len() - n,
    {
        let record = &records[n];
        assert(records.deep_view()[n as int] == record.deep_view());
        proof {
            reveal(Seq::filter);
            assert(all.take(n + 1).drop_last() =~= all.take(n as int));
            assert(all.take(n + 1).last() == record.deep_view());
        }
        if let Some(stop_sequence) = get_number(record, i_stop_sequence) {
            out.push(
                StopTimeRow {
                    trip_id: get_or(record, i_trip_id, ""),
                    stop_sequence,
                    stop_id: get_or(record, i_stop_id, ""),
                    arrival_secs: get_time(record, i_arrival_secs),
                    departure_secs: get_time(record, i_departure_secs),
                },
            );
        }
        n = n + 1;
    }
    assert(all.take(all.len() as int) =~= all);
    out
}

/// Loads `stop_times.txt` from a ZIP file.
pub fn load_stop_times(zip: &[u8]) -> (r: Result<Vec<StopTimeRow>, GtfsError>)
    ensures
        r is Ok <==> file_in(zip@, GtfsFile::StopTimes.layout()) is Ok,
        r matches Ok(rows) ==> {
            let (h, records) = file_in(zip@, GtfsFile::StopTimes.layout())->Ok_0;
            &&& rows@.len() == placed_records(h, records).len()
            &&& forall|i: int|
                0 <= i < rows@.len() ==> is_stop_time(
                    #[trigger] rows@[i],
                    h,
                    placed_records(h, records)[i],
                )
        },
        r matches Err(e) ==> e@ == file_in(zip@, GtfsFile::StopTimes.layout())->Err_0,
{
    match read_table(zip, GtfsFile::StopTimes) {
        Ok(t) => Ok(stop_times_rows(&t.header, &t.records)),
        Err(e) => Err(e),
    }
}

// The table `calendar.txt`.

/// On which weekdays, from when to when, a service runs.
#[derive(Debug, PartialEq, Eq)]
pub struct CalendarRow {
    pub service_id: String,
    pub monday: i64,
    pub tuesday: i64,
    pub wednesday: i64,
    pub thursday: i64,
    pub friday: i64,
    pub saturday: i64,
    pub sunday: i64,
    pub start_date: String,
    pub end_date: String,
}

impl Clone for CalendarRow {
    fn clone(&self) -> (r: Self)
        ensures
            r == *self,
    {
        CalendarRow {
            service_id: self.service_id.clone(),
            monday: self.monday,
            tuesday: self.tuesday,
            wednesday: self.wednesday,
            thursday: self.thursday,
            friday: self.friday,
            saturday: self.saturday,
            sunday: self.sunday,
            start_date: self.start_date.clone(),
            end_date: self.end_date.clone(),
        }
    }
}

/// Whether `x` is the service that a record of `calendar.txt` tells of.
pub open spec fn is_calendar(x: CalendarRow, h: Seq<Seq<char>>, record: Seq<Seq<char>>) -> bool {
    &&& x.service_id@ == text_or(cell(h, record, "service_id"@), ""@)
    &&& x.monday == number_or(number(cell(h, record, "monday"@)), 0)
    &&& x.tuesday == number_or(number(cell(h, record, "tuesday"@)), 0)
    &&& x.wednesday == number_or(number(cell(h, record, "wednesday"@)), 0)
    &&& x.thursday == number_or(number(cell(h, record, "thursday"@)), 0)
    &&& x.friday == number_or(number(cell(h, record, "friday"@)), 0)
    &&& x.saturday == number_or(number(cell(h, record, "saturday"@)), 0)
    &&& x.sunday == number_or(number(cell(h, record, "sunday"@)), 0)
    &&& x.start_date@ == text_or(cell(h, record, "start_date"@), ""@)
    &&& x.end_date@ == text_or(cell(h, record, "end_date"@), ""@)
}

/// The rows that the records of `calendar.txt` give, one each, in their order.
pub fn calendar_rows(header: &[String], records: &[Vec<String>]) -> (r: Vec<CalendarRow>)
    ensures
        r@.len() == records.deep_view().len(),
        forall|i: int|
            0 <= i < r@.len() ==> is_calendar(
                #[trigger] r@[i],
                header.deep_view(),
                records.deep_view()[i],
            ),
{
    let i_service_id = find_column(header, "service_id");
    let i_monday = find_column(header, "monday");
    let i_tuesday = find_column(header, "tuesday");
    let i_wednesday = find_column(header, "wednesday");
    let i_thursday = find_column(header, "thursday");
    let i_friday = find_column(header, "friday");
    let i_saturday = find_column(header, "saturday");
    let i_sunday = find_column(header, "sunday");
    let i_start_date = find_column(header, "start_date");
    let i_end_date = find_column(header, "end_date");
    let ghost h = header.deep_view();
    let mut out: Vec<CalendarRow> = Vec::new();
    let mut n: usize = 0;
    while n < records.len()
        invariant
            0 <= n <= records@.len(),
            place(i_service_id) == column(h, "service_id"@),
            place(i_monday) == column(h, "monday"@),
            place(i_tuesday) == column(h, "tuesday"@),
            place(i_wednesday) == column(h, "wednesday"@),
            place(i_thursday) == column(h, "thursday"@),
            place(i_friday) == column(h, "friday"@),
            place(i_saturday) == column(h, "saturday"@),
            place(i_sunday) == column(h, "sunday"@),
            place(i_start_date) == column(h, "start_date"@),
            place(i_end_date) == column(h, "end_date"@),
            out@.len() == n,
            forall|i: int|
                0 <= i < n ==> is_calendar(#[trigger] out@[i], h, records.deep_view()[i]),
        decreases records@.len() - n,
    {
        let record = &records[n];
        assert(records.deep_view()[n as int] == record.deep_view());
        out.push(
            CalendarRow {
                service_id: get_or(record, i_service_id, ""),
                monday: get_number_or(record, i_monday, 0),
                tuesday: get_number_or(record, i_tuesday, 0),
                wednesday: get_number_or(record, i_wednesday, 0),
                thursday: get_number_or(record, i_thursday, 0),
                friday: get_number_or(record, i_friday, 0),
                saturday: get_number_or(record, i_saturday, 0),
                sunday: get_number_or(record, i_sunday, 0),
                start_date: get_or(record, i_start_date, ""),
                end_date: get_or(record, i_end_date, ""),
            },
        );
        n = n + 1;
    }
    out
}

/// Loads `calendar.txt` from a ZIP file.
pub fn load_calendar(zip: &[u8]) -> (r: Result<Vec<CalendarRow>, GtfsError>)
    ensures
        r is Ok <==> file_in(zip@, GtfsFile::Calendar.layout()) is Ok,
        r matches Ok(rows) ==> {
            let (h, records) = file_in(zip@, GtfsFile::Calendar.layout())->Ok_0;
            &&& rows@.len() == records.len()
            &&& forall|i: int|
                0 <= i < rows@.len() ==> is_calendar(#[trigger] rows@[i], h, records[i])
        },
        r matches Err(e) ==> e@ == file_in(zip@, GtfsFile::Calendar.layout())->Err_0,
{
    match read_table(zip, GtfsFile::Calendar) {
        Ok(t) => Ok(calendar_rows(&t.header, &t.records)),
        Err(e) => Err(e),
    }
}

// The table `calendar_dates.txt`.

/// The columns that `calendar_dates.txt` has to have.
pub open spec fn calendar_date_columns() -> Seq<Seq<char>> {
    seq!["service_id"@, "date"@, "exception_type"@]
}

/// A date on which a service runs (1) or does not run (2) against its calendar.
#[derive(Debug, PartialEq, Eq)]
pub struct CalendarDateRow {
    pub service_id: String,
    pub date: String,
    pub exception_type: i64,
}

impl Clone for CalendarDateRow {
    fn clone(&self) -> (r: Self)
        ensures
            r == *self,
    {
        CalendarDateRow {
            service_id: self.service_id.clone(),
            date: self.date.clone(),
            exception_type: self.exception_type,
        }
    }
}

/// Whether `x` is the exception that a record of `calendar_dates.txt` tells of.
pub open spec fn is_calendar_date(
    x: CalendarDateRow,
    h: Seq<Seq<char>>,
    record: Seq<Seq<char>>,
) -> bool {
    &&& x.service_id@ == text_or(cell(h, record, "service_id"@), ""@)
    &&& x.date@ == text_or(cell(h, record, "date"@), ""@)
    &&& x.exception_type == number_or(number(cell(h, record, "exception_type"@)), 0)
}

/// The rows that the records of `calendar_dates.txt` give, one each, in their order.
pub fn calendar_dates_rows(header: &[String], records: &[Vec<String>]) -> (r: Vec<CalendarDateRow>)
    ensures
        r@.len() == records.deep_view().len(),
        forall|i: int|
            0 <= i < r@.len() ==> is_calendar_date(
                #[trigger] r@[i],
                header.deep_view(),
                records.deep_view()[i],
            ),
{
    let i_service_id = find_column(header, "service_id");
    let i_date = find_column(header, "date");
    let i_exception_type = find_column(header, "exception_type");
    let ghost h = header.deep_view();
    let mut out: Vec<CalendarDateRow> = Vec::new();
    let mut n: usize = 0;
    while n < records.len()
        invariant
            0 <= n <= records@.len(),
            place(i_service_id) == column(h, "service_id"@),
            place(i_date) == column(h, "date"@),
            place(i_exception_type) == column(h, "exception_type"@),
            out@.len() == n,
            forall|i: int|
                0 <= i < n ==> is_calendar_date(#[trigger] out@[i], h, records.deep_view()[i]),
        decreases records@.len() - n,
    {
        let record = &records[n];
        assert(records.deep_view()[n as int] == record.deep_view());
        out.push(
            CalendarDateRow {
                service_id: get_or(record, i_service_id, ""),
                date: get_or(record, i_date, ""),
                exception_type: get_number_or(record, i_exception_type, 0),
            },
        );
        n = n + 1;
    }
    out
}

/// Loads `calendar_dates.txt` from a ZIP file.
pub fn load_calendar_dates(zip: &[u8]) -> (r: Result<Vec<CalendarDateRow>, GtfsError>)
    ensures
        r is Ok <==> file_in(zip@, GtfsFile::CalendarDates.layout()) is Ok,
        r matches Ok(rows) ==> {
            let (h, records) = file_in(zip@, GtfsFile::CalendarDates.layout())->Ok_0;
            &&& rows@.len() == records.len()
            &&& forall|i: int|
                0 <= i < rows@.len() ==> is_calendar_date(#[trigger] rows@[i], h, records[i])
        },
        r matches Err(e) ==> e@ == file_in(zip@, GtfsFile::CalendarDates.layout())->Err_0,
{
    match read_table(zip, GtfsFile::CalendarDates) {
        Ok(t) => Ok(calendar_dates_rows(&t.header, &t.records)),
        Err(e) => Err(e),
    }
}

// All tables.

/// The tables of a timetable, in the order of its files. `shapes.txt` is left
/// out.
#[derive(Debug)]
pub struct GtfsTables {
    pub stops: Vec<UnlocatedStop>,
    pub routes: Vec<RouteRow>,
    pub trips: Vec<TripRow>,
    pub stop_times: Vec<StopTimeRow>,
    pub calendar: Vec<CalendarRow>,
    pub calendar_dates: Vec<CalendarDateRow>,
}

/// The files of a timetable that are loaded, in this order, and the columns that
/// each has to have.
pub open spec fn files() -> Seq<(Seq<char>, Seq<Seq<char>>)> {
    seq![
        GtfsFile::Stops.layout(),
        GtfsFile::Routes.layout(),
        GtfsFile::Trips.layout(),
        GtfsFile::StopTimes.layout(),
        GtfsFile::Calendar.layout(),
        GtfsFile::CalendarDates.layout(),
    ]
}

/// What is wrong with the first file of a list with which something is.
pub open spec fn first_fault(zip: Seq<u8>, files: Seq<(Seq<char>, Seq<Seq<char>>)>) -> Option<
    GtfsFault,
>
    decreases files.len(),
{
    if files.len() == 0 {
        None
    } else {
        match file_in(zip, files[0]) {
            Err(e) => Some(e),
            Ok(_) => first_fault(zip, files.drop_first()),
        }
    }
}

/// What is wrong with a timetable in a ZIP file, if anything is.
pub open spec fn zip_fault(zip: Seq<u8>) -> Option<GtfsFault> {
    if is_zip(zip) {
        first_fault(zip, files())
    } else {
        Some(GtfsFault::Zip)
    }
}

/// Whether the tables hold what the files of a ZIP file tell.
pub open spec fn holds_tables(t: GtfsTables, zip: Seq<u8>) -> bool {
    let stops = file_in(zip, files()[0])->Ok_0;
    let routes = file_in(zip, files()[1])->Ok_0;
    let trips = file_in(zip, files()[2])->Ok_0;
    let times = file_in(zip, files()[3])->Ok_0;
    let calendar = file_in(zip, files()[4])->Ok_0;
    let dates = file_in(zip, files()[5])->Ok_0;
    &&& t.stops@.len() == stops.1.len()
    &&& forall|i: int|
        0 <= i < t.stops@.len() ==> is_stop(#[trigger] t.stops@[i], stops.0, stops.1[i])
    &&& t.routes@.len() == routes.1.len()
    &&& forall|i: int|
        0 <= i < t.routes@.len() ==> is_route(#[trigger] t.routes@[i], routes.0, routes.1[i])
    &&& t.trips@.len() == trips.1.len()
    &&& forall|i: int|
        0 <= i < t.trips@.len() ==> is_trip(#[trigger] t.trips@[i], trips.0, trips.1[i])
    &&& t.stop_times@.len() == placed_records(times.0, times.1).len()
    &&& forall|i: int|
        0 <= i < t.stop_times@.len() ==> is_stop_time(
            #[trigger] t.stop_times@[i],
            times.0,
            placed_records(times.0, times.1)[i],
        )
    &&& t.calendar@.len() == calendar.1.len()
    &&& forall|i: int|
        0 <= i < t.calendar@.len() ==> is_calendar(
            #[trigger] t.calendar@[i],
            calendar.0,
            calendar.1[i],
        )
    &&& t.calendar_dates@.len() == dates.1.len()
    &&& forall|i: int|
        0 <= i < t.calendar_dates@.len() ==> is_calendar_date(
            #[trigger] t.calendar_dates@[i],
            dates.0,
            dates.1[i],
        )
}

pub(crate) proof fn lemma_first_fault(zip: Seq<u8>, files: Seq<(Seq<char>, Seq<Seq<char>>)>, n: int)
    requires
        0 <= n <= files.len(),
        forall|i: int| 0 <= i < n ==> file_in(zip, #[trigger] files[i]) is Ok,
    ensures
        n < files.len() ==> (file_in(zip, files[n]) matches Err(e) ==> first_fault(zip, files)
            == Some(e)),
        n == files.len() ==> first_fault(zip, files) is None,
    decreases files.len(),
{
    if files.len() > 0 && n > 0 {
        assert(file_in(zip, files[0]) is Ok);
        assert forall|i: int| 0 <= i < n - 1 implies file_in(
            zip,
            #[trigger] files.drop_first()[i],
        ) is Ok by {
            assert(files.drop_first()[i] == files[i + 1]);
        }
        lemma_first_fault(zip, files.drop_first(), n - 1);
        if n < files.len() {
            assert(files.drop_first()[n - 1] == files[n]);
        }
    }
}

/// Loads a timetable that is held in memory as a ZIP file. The files are read in
/// their order; the first with which something is wrong decides.
pub fn load_zip(zip: &[u8]) -> (r: Result<GtfsTables, GtfsError>)
    ensures
        r is Ok <==> zip_fault(zip@) is None,
        r matches Ok(t) ==> holds_tables(t, zip@),
        r matches Err(e) ==> e@ == zip_fault(zip@)->0,
{
    if !opens_as_zip(zip) {
        return Err(GtfsError::Zip);
    }
    let ghost f = files();
    proof {
        lemma_first_fault(zip@, f, 0);
    }
    let stops = match load_stops(zip) {
        Ok(rows) => rows,
        Err(e) => {
            return Err(e);
        },
    };
    assert(file_in(zip@, f[0]) is Ok);
    proof {
        lemma_first_fault(zip@, f, 1);
    }
    let routes = match load_routes(zip) {
        Ok(rows) => rows,
        Err(e) => {
            return Err(e);
        },
    };
    assert(file_in(zip@, f[1]) is Ok);
    proof {
        lemma_first_fault(zip@, f, 2);
    }
    let trips = match load_trips(zip) {
        Ok(rows) => rows,
        Err(e) => {
            return Err(e);
        },
    };
    assert(file_in(zip@, f[2]) is Ok);
    proof {
        lemma_first_fault(zip@, f, 3);
    }
    let stop_times = match load_stop_times(zip) {
        Ok(rows) => rows,
        Err(e) => {
            return Err(e);
        },
    };
    assert(file_in(zip@, f[3]) is Ok);
    proof {
        lemma_first_fault(zip@, f, 4);
    }
    let calendar = match load_calendar(zip) {
        Ok(rows) => rows,
        Err(e) => {
            return Err(e);
        },
    };
    assert(file_in(zip@, f[4]) is Ok);
    proof {
        lemma_first_fault(zip@, f, 5);
    }
    let calendar_dates = match load_calendar_dates(zip) {
        Ok(rows) => rows,
        Err(e) => {
            return Err(e);
        },
    };
    assert(file_in(zip@, f[5]) is Ok);
    proof {
        lemma_first_fault(zip@, f, 6);
    }
    Ok(GtfsTables { stops, routes, trips, stop_times, calendar, calendar_dates })
}

/// How many rows of each table are loaded, given the stops that have a position.
pub fn count_rows(tables: &GtfsTables, stops: &[StopRow]) -> (r: GtfsStats)
    ensures
        r == (GtfsStats {
            stops: stops@.len() as usize,
            routes: tables.routes@.len() as usize,
            trips: tables.trips@.len() as usize,
            stop_times: tables.stop_times@.len() as usize,
            calendar: tables.calendar@.len() as usize,
            calendar_dates: tables.calendar_dates@.len() as usize,
        }),
{
    GtfsStats {
        stops: stops.len(),
        routes: tables.routes.len(),
        trips: tables.trips.len(),
        stop_times: tables.stop_times.len(),
        calendar: tables.calendar.len(),
        calendar_dates: tables.calendar_dates.len(),
    }
}

/// Whether there is one row for each record, which tells of it.
pub open spec fn one_each<R>(
    rows: Seq<R>,
    records: Seq<Seq<Seq<char>>>,
    tells: spec_fn(R, Seq<Seq<char>>) -> bool,
) -> bool {
    &&& rows.len() == records.len()
    &&& forall|i: int| 0 <= i < rows.len() ==> tells(#[trigger] rows[i], records[i])
}

/// A table may be read in slices: the rows of two runs of records, one behind
/// the other, are the rows of all those records.
pub proof fn slices_give_the_rows_of_the_table<R>(
    rows: Seq<R>,
    records: Seq<Seq<Seq<char>>>,
    more_rows: Seq<R>,
    more_records: Seq<Seq<Seq<char>>>,
    tells: spec_fn(R, Seq<Seq<char>>) -> bool,
)
    requires
        one_each(rows, records, tells),
        one_each(more_rows, more_records, tells),
    ensures
        one_each(rows + more_rows, records + more_records, tells),
{
    let all = rows + more_rows;
    assert forall|i: int| 0 <= i < all.len() implies tells(
        #[trigger] all[i],
        (records + more_records)[i],
    ) by {
        if i < rows.len() {
            assert(tells(rows[i], records[i]));
        } else {
            assert(tells(more_rows[i - rows.len()], more_records[i - rows.len()]));
        }
    }
}

/// The records that tell of a call, and the stops that have a position, may be
/// picked slice by slice.
pub proof fn slices_are_picked_one_by_one(
    h: Seq<Seq<char>>,
    records: Seq<Seq<Seq<char>>>,
    more_records: Seq<Seq<Seq<char>>>,
    stops: Seq<UnlocatedStop>,
    positions: Seq<(Degrees, Degrees)>,
    more_stops: Seq<UnlocatedStop>,
    more_positions: Seq<(Degrees, Degrees)>,
)
    requires
        stops.len() == positions.len(),
        more_stops.len() == more_positions.len(),
    ensures
        placed_records(h, records + more_records) == placed_records(h, records) + placed_records(
            h,
            more_records,
        ),
        located(stops + more_stops, positions + more_positions) == located(stops, positions)
            + located(more_stops, more_positions),
{
    crate::table::lemma_filter_concat(records, more_records, is_placed(h));
    let p = |s: StopRow| !(is_zero(s.lat) && is_zero(s.lon));
    let a = Seq::new(stops.len(), |i: int| stop_at(stops[i], positions[i]));
    let b = Seq::new(more_stops.len(), |i: int| stop_at(more_stops[i], more_positions[i]));
    let all = stops + more_stops;
    let at = positions + more_positions;
    assert(Seq::new(all.len(), |i: int| stop_at(all[i], at[i])) =~= a + b);
    crate::table::lemma_filter_concat(a, b, p);
}

} // verus!
