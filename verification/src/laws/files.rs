//! Laws of loading: from which column of which file each field is read.

use crate::domain::Degrees;
use crate::gtfs::{gtfs_time, GtfsError};
use crate::loader::{
    calendar_dates_rows, calendar_rows, column, entry_body, entry_header, file_in, first_missing,
    is_calendar, is_calendar_date, is_route, is_stop, is_stop_time, is_trip, is_zip, load_zip,
    locate_stops, routes_rows, stop_rows, stop_times_rows, trips_rows, CalendarDateRow,
    CalendarRow, GtfsFile, GtfsTables, RouteRow, StopRow, StopTimeRow, TripRow, UnlocatedStop,
};
use crate::text::i64_of;
use vstd::prelude::*;

verus! {

/// Whether column `i` is the first of that name in a header.
pub open spec fn heads(h: Seq<Seq<char>>, i: int, name: Seq<char>) -> bool {
    &&& 0 <= i < h.len()
    &&& h[i] == name
    &&& forall|k: int| 0 <= k < i ==> #[trigger] h[k] != name
}

/// Whether no column of a header has that name.
pub open spec fn lacks(h: Seq<Seq<char>>, name: Seq<char>) -> bool {
    forall|k: int| 0 <= k < h.len() ==> #[trigger] h[k] != name
}

/// Whether a text is what a record holds in the first column of that name or,
/// where header or record has none, another text.
pub open spec fn reads_text(
    h: Seq<Seq<char>>,
    record: Seq<Seq<char>>,
    name: Seq<char>,
    text: Seq<char>,
    other: Seq<char>,
) -> bool {
    &&& forall|i: int| #[trigger]
        heads(h, i, name) ==> text == (if i < record.len() {
            record[i]
        } else {
            other
        })
    &&& lacks(h, name) ==> text == other
}

/// Whether an optional text is what a record holds in the first column of that
/// name: none where header or record has none, or the cell is empty.
pub open spec fn reads_some(
    h: Seq<Seq<char>>,
    record: Seq<Seq<char>>,
    name: Seq<char>,
    text: Option<String>,
) -> bool {
    &&& forall|i: int| #[trigger]
        heads(h, i, name) ==> (if i < record.len() && record[i].len() > 0 {
            text matches Some(t) && t@ == record[i]
        } else {
            text is None
        })
    &&& lacks(h, name) ==> text is None
}

/// Whether an optional integer is what a record writes in the first column of
/// that name: none where there is no cell or it writes none.
pub open spec fn reads_number(
    h: Seq<Seq<char>>,
    record: Seq<Seq<char>>,
    name: Seq<char>,
    number: Option<i64>,
) -> bool {
    &&& forall|i: int| #[trigger]
        heads(h, i, name) ==> number == (if i < record.len() {
            i64_of(record[i])
        } else {
            None
        })
    &&& lacks(h, name) ==> number is None
}

/// Whether an integer is what a record writes in the first column of that name
/// or, where there is no cell or it writes none, another one.
pub open spec fn reads_number_or(
    h: Seq<Seq<char>>,
    record: Seq<Seq<char>>,
    name: Seq<char>,
    number: i64,
    other: i64,
) -> bool {
    &&& forall|i: int| #[trigger]
        heads(h, i, name) ==> number == (if i < record.len() && i64_of(record[i]) is Some {
            i64_of(record[i])->0
        } else {
            other
        })
    &&& lacks(h, name) ==> number == other
}

/// Whether an optional time is what a record writes in the first column of that
/// name, in seconds from midnight.
pub open spec fn reads_time(
    h: Seq<Seq<char>>,
    record: Seq<Seq<char>>,
    name: Seq<char>,
    secs: Option<i64>,
) -> bool {
    &&& forall|i: int| #[trigger]
        heads(h, i, name) ==> secs == (if i < record.len() {
            gtfs_time(record[i])
        } else {
            None
        })
    &&& lacks(h, name) ==> secs is None
}

pub(crate) proof fn lemma_heads(h: Seq<Seq<char>>, name: Seq<char>)
    ensures
        forall|i: int| #[trigger] heads(h, i, name) ==> column(h, name) == Some(i),
        lacks(h, name) ==> column(h, name) is None,
        column(h, name) is Some ==> heads(h, column(h, name)->0, name),
    decreases h.len(),
{
    if h.len() > 0 {
        let t = h.drop_last();
        lemma_heads(t, name);
        crate::loader::a_column_is_where_its_name_stands(h, name);
        assert forall|i: int| #[trigger] heads(h, i, name) implies column(h, name) == Some(i) by {
            if i < t.len() {
                assert forall|k: int| 0 <= k < i implies #[trigger] t[k] != name by {
                    assert(h[k] == t[k]);
                }
                assert(heads(t, i, name));
            } else if column(t, name) is Some {
                let k = column(t, name)->0;
                assert(heads(t, k, name));
                assert(h[k] == t[k]);
            }
        }
        if column(h, name) is Some {
            let i = column(h, name)->0;
            if column(t, name) is Some {
                assert forall|k: int| 0 <= k < i implies #[trigger] h[k] != name by {
                    assert(h[k] == t[k]);
                }
            } else {
                crate::loader::a_column_is_where_its_name_stands(t, name);
                assert forall|k: int| 0 <= k < i implies #[trigger] h[k] != name by {
                    assert(h[k] == t[k]);
                }
            }
        }
        if lacks(h, name) {
            if column(h, name) is Some {
                assert(h[column(h, name)->0] == name);
            }
        }
    }
}

/// Whether `x` tells of a stop as a record of `stops.txt` has it.
pub open spec fn tells_stop(x: UnlocatedStop, h: Seq<Seq<char>>, record: Seq<Seq<char>>) -> bool {
    &&& reads_text(h, record, "stop_id"@, x.stop_id@, ""@)
    &&& reads_text(h, record, "stop_name"@, x.stop_name@, ""@)
    &&& reads_some(h, record, "stop_desc"@, x.stop_desc)
    &&& reads_text(h, record, "stop_lat"@, x.lat@, "0"@)
    &&& reads_text(h, record, "stop_lon"@, x.lon@, "0"@)
    &&& reads_number(h, record, "wheelchair_boarding"@, x.wheelchair)
    &&& reads_some(h, record, "zone_id"@, x.zone_id)
    &&& reads_some(h, record, "parent_station"@, x.parent_station)
}

proof fn lemma_tells_stop(x: UnlocatedStop, h: Seq<Seq<char>>, record: Seq<Seq<char>>)
    requires
        is_stop(x, h, record),
    ensures
        tells_stop(x, h, record),
{
    lemma_heads(h, "stop_id"@);
    lemma_heads(h, "stop_name"@);
    lemma_heads(h, "stop_desc"@);
    lemma_heads(h, "stop_lat"@);
    lemma_heads(h, "stop_lon"@);
    lemma_heads(h, "wheelchair_boarding"@);
    lemma_heads(h, "zone_id"@);
    lemma_heads(h, "parent_station"@);
    assert(i64_of(Seq::<char>::empty()) is None);
    assert forall|i: int| #[trigger] heads(h, i, "wheelchair_boarding"@) && i < record.len()
        && record[i].len() == 0 implies i64_of(record[i]) is None by {
        assert(record[i] =~= Seq::<char>::empty());
    }
}

/// Whether `x` tells of a line as a record of `routes.txt` has it.
pub open spec fn tells_route(x: RouteRow, h: Seq<Seq<char>>, record: Seq<Seq<char>>) -> bool {
    &&& reads_text(h, record, "route_id"@, x.route_id@, ""@)
    &&& reads_text(h, record, "route_short_name"@, x.short_name@, ""@)
    &&& reads_text(h, record, "route_long_name"@, x.long_name@, ""@)
    &&& reads_number_or(h, record, "route_type"@, x.route_type, 3)
    &&& reads_some(h, record, "route_color"@, x.color)
}

proof fn lemma_tells_route(x: RouteRow, h: Seq<Seq<char>>, record: Seq<Seq<char>>)
    requires
        is_route(x, h, record),
    ensures
        tells_route(x, h, record),
{
    lemma_heads(h, "route_id"@);
    lemma_heads(h, "route_short_name"@);
    lemma_heads(h, "route_long_name"@);
    lemma_heads(h, "route_type"@);
    lemma_heads(h, "route_color"@);
}

/// Whether `x` tells of a trip as a record of `trips.txt` has it.
pub open spec fn tells_trip(x: TripRow, h: Seq<Seq<char>>, record: Seq<Seq<char>>) -> bool {
    &&& reads_text(h, record, "trip_id"@, x.trip_id@, ""@)
    &&& reads_text(h, record, "route_id"@, x.route_id@, ""@)
    &&& reads_text(h, record, "service_id"@, x.service_id@, ""@)
    &&& reads_text(h, record, "trip_headsign"@, x.headsign@, ""@)
    &&& reads_number(h, record, "direction_id"@, x.direction)
}

proof fn lemma_tells_trip(x: TripRow, h: Seq<Seq<char>>, record: Seq<Seq<char>>)
    requires
        is_trip(x, h, record),
    ensures
        tells_trip(x, h, record),
{
    lemma_heads(h, "trip_id"@);
    lemma_heads(h, "route_id"@);
    lemma_heads(h, "service_id"@);
    lemma_heads(h, "trip_headsign"@);
    lemma_heads(h, "direction_id"@);
}

/// Whether `x` tells of a call as a record of `stop_times.txt` has it.
pub open spec fn tells_stop_time(x: StopTimeRow, h: Seq<Seq<char>>, record: Seq<Seq<char>>) -> bool {
    &&& reads_text(h, record, "trip_id"@, x.trip_id@, ""@)
    &&& reads_number(h, record, "stop_sequence"@, Some(x.stop_sequence))
    &&& reads_text(h, record, "stop_id"@, x.stop_id@, ""@)
    &&& reads_time(h, record, "arrival_time"@, x.arrival_secs)
    &&& reads_time(h, record, "departure_time"@, x.departure_secs)
}

proof fn lemma_tells_stop_time(x: StopTimeRow, h: Seq<Seq<char>>, record: Seq<Seq<char>>)
    requires
        is_stop_time(x, h, record),
    ensures
        tells_stop_time(x, h, record),
{
    lemma_heads(h, "trip_id"@);
    lemma_heads(h, "stop_sequence"@);
    lemma_heads(h, "stop_id"@);
    lemma_heads(h, "arrival_time"@);
    lemma_heads(h, "departure_time"@);
}

/// Whether `x` tells of a service as a record of `calendar.txt` has it.
pub open spec fn tells_calendar(x: CalendarRow, h: Seq<Seq<char>>, record: Seq<Seq<char>>) -> bool {
    &&& reads_text(h, record, "service_id"@, x.service_id@, ""@)
    &&& reads_number_or(h, record, "monday"@, x.monday, 0)
    &&& reads_number_or(h, record, "tuesday"@, x.tuesday, 0)
    &&& reads_number_or(h, record, "wednesday"@, x.wednesday, 0)
    &&& reads_number_or(h, record, "thursday"@, x.thursday, 0)
    &&& reads_number_or(h, record, "friday"@, x.friday, 0)
    &&& reads_number_or(h, record, "saturday"@, x.saturday, 0)
    &&& reads_number_or(h, record, "sunday"@, x.sunday, 0)
    &&& reads_text(h, record, "start_date"@, x.start_date@, ""@)
    &&& reads_text(h, record, "end_date"@, x.end_date@, ""@)
}

proof fn lemma_tells_calendar(x: CalendarRow, h: Seq<Seq<char>>, record: Seq<Seq<char>>)
    requires
        is_calendar(x, h, record),
    ensures
        tells_calendar(x, h, record),
{
    lemma_heads(h, "service_id"@);
    lemma_heads(h, "monday"@);
    lemma_heads(h, "tuesday"@);
    lemma_heads(h, "wednesday"@);
    lemma_heads(h, "thursday"@);
    lemma_heads(h, "friday"@);
    lemma_heads(h, "saturday"@);
    lemma_heads(h, "sunday"@);
    lemma_heads(h, "start_date"@);
    lemma_heads(h, "end_date"@);
}

/// Whether `x` tells of an exception as a record of `calendar_dates.txt` has it.
pub open spec fn tells_calendar_date(x: CalendarDateRow, h: Seq<Seq<char>>, record: Seq<Seq<char>>) -> bool {
    &&& reads_text(h, record, "service_id"@, x.service_id@, ""@)
    &&& reads_text(h, record, "date"@, x.date@, ""@)
    &&& reads_number_or(h, record, "exception_type"@, x.exception_type, 0)
}

proof fn lemma_tells_calendar_date(x: CalendarDateRow, h: Seq<Seq<char>>, record: Seq<Seq<char>>)
    requires
        is_calendar_date(x, h, record),
    ensures
        tells_calendar_date(x, h, record),
{
    lemma_heads(h, "service_id"@);
    lemma_heads(h, "date"@);
    lemma_heads(h, "exception_type"@);
}

/// Each record of `stops.txt` gives one row, in their order, whose fields are read
/// from the columns that bear their names.
pub proof fn stops_are_read_from_their_columns(
    header: &[String],
    records: &[Vec<String>],
    r: Vec<UnlocatedStop>,
    n: int,
)
    requires
        call_ensures(stop_rows, (header, records), r),
        0 <= n < r@.len(),
    ensures
        r@.len() == records@.len(),
        tells_stop(r@[n], header.deep_view(), records@[n].deep_view()),
{
    assert(records.deep_view()[n] == records@[n].deep_view());
    lemma_tells_stop(r@[n], header.deep_view(), records.deep_view()[n]);
}

/// Each record of `routes.txt` gives one row, in their order, whose fields are read
/// from the columns that bear their names.
pub proof fn routes_are_read_from_their_columns(
    header: &[String],
    records: &[Vec<String>],
    r: Vec<RouteRow>,
    n: int,
)
    requires
        call_ensures(routes_rows, (header, records), r),
        0 <= n < r@.len(),
    ensures
        r@.len() == records@.len(),
        tells_route(r@[n], header.deep_view(), records@[n].deep_view()),
{
    assert(records.deep_view()[n] == records@[n].deep_view());
    lemma_tells_route(r@[n], header.deep_view(), records.deep_view()[n]);
}

/// Each record of `trips.txt` gives one row, in their order, whose fields are read
/// from the columns that bear their names.
pub proof fn trips_are_read_from_their_columns(
    header: &[String],
    records: &[Vec<String>],
    r: Vec<TripRow>,
    n: int,
)
    requires
        call_ensures(trips_rows, (header, records), r),
        0 <= n < r@.len(),
    ensures
        r@.len() == records@.len(),
        tells_trip(r@[n], header.deep_view(), records@[n].deep_view()),
{
    assert(records.deep_view()[n] == records@[n].deep_view());
    lemma_tells_trip(r@[n], header.deep_view(), records.deep_view()[n]);
}

/// Each record of `calendar.txt` gives one row, in their order, whose fields are read
/// from the columns that bear their names.
pub proof fn calendar_are_read_from_their_columns(
    header: &[String],
    records: &[Vec<String>],
    r: Vec<CalendarRow>,
    n: int,
)
    requires
        call_ensures(calendar_rows, (header, records), r),
        0 <= n < r@.len(),
    ensures
        r@.len() == records@.len(),
        tells_calendar(r@[n], header.deep_view(), records@[n].deep_view()),
{
    assert(records.deep_view()[n] == records@[n].deep_view());
    lemma_tells_calendar(r@[n], header.deep_view(), records.deep_view()[n]);
}

/// Each record of `calendar_dates.txt` gives one row, in their order, whose fields are read
/// from the columns that bear their names.
pub proof fn calendar_dates_are_read_from_their_columns(
    header: &[String],
    records: &[Vec<String>],
    r: Vec<CalendarDateRow>,
    n: int,
)
    requires
        call_ensures(calendar_dates_rows, (header, records), r),
        0 <= n < r@.len(),
    ensures
        r@.len() == records@.len(),
        tells_calendar_date(r@[n], header.deep_view(), records@[n].deep_view()),
{
    assert(records.deep_view()[n] == records@[n].deep_view());
    lemma_tells_calendar_date(r@[n], header.deep_view(), records.deep_view()[n]);
}

/// Each row of `stop_times.txt` is read, from the columns that bear the names of
/// its fields, from a record whose place in the trip is an integer.
pub proof fn stop_times_are_read_from_their_columns(
    header: &[String],
    records: &[Vec<String>],
    r: Vec<StopTimeRow>,
    n: int,
) -> (m: int)
    requires
        call_ensures(stop_times_rows, (header, records), r),
        0 <= n < r@.len(),
    ensures
        0 <= m < records@.len(),
        tells_stop_time(r@[n], header.deep_view(), records@[m].deep_view()),
{
    let h = header.deep_view();
    let all = records.deep_view();
    let kept = crate::loader::placed_records(h, all);
    crate::table::lemma_filter_items(all, crate::loader::is_placed(h));
    assert(is_stop_time(r@[n], h, kept[n]));
    assert(all.contains(kept[n]));
    lemma_tells_stop_time(r@[n], h, kept[n]);
    let m = choose|m: int| 0 <= m < all.len() && all[m] == kept[n];
    assert(all[m] == records@[m].deep_view());
    m
}

/// Every record of `stop_times.txt` whose place in the trip is an integer gives a
/// row, behind the rows of the records before it.
pub proof fn every_placed_record_is_read(
    header: &[String],
    records: &[Vec<String>],
    r: Vec<StopTimeRow>,
    m: int,
    i: int,
) -> (n: int)
    requires
        call_ensures(stop_times_rows, (header, records), r),
        0 <= m < records@.len(),
        heads(header.deep_view(), i, "stop_sequence"@),
        i < records@[m]@.len(),
        i64_of(records@[m]@[i]@) is Some,
    ensures
        0 <= n < r@.len(),
        n <= m,
        tells_stop_time(r@[n], header.deep_view(), records@[m].deep_view()),
{
    let h = header.deep_view();
    let all = records.deep_view();
    let p = crate::loader::is_placed(h);
    let kept = crate::loader::placed_records(h, all);
    lemma_heads(h, "stop_sequence"@);
    assert(all[m] == records@[m].deep_view());
    assert(records@[m].deep_view()[i] == records@[m]@[i]@);
    assert(p(all[m]));
    let front = all.take(m);
    let back = all.skip(m);
    assert(all =~= front + back);
    crate::table::lemma_filter_concat(front, back, p);
    crate::table::lemma_filter_items(front, p);
    assert(back[0] == all[m]);
    crate::table::lemma_first_of_filter(back, p, 0);
    let n = front.filter(p).len() as int;
    assert(kept[n] == all[m]);
    assert(is_stop_time(r@[n], h, kept[n]));
    lemma_tells_stop_time(r@[n], h, kept[n]);
    n
}

/// What an entry of a ZIP file holds, where it can be read: its header.
pub open spec fn header_of(zip: Seq<u8>, name: Seq<char>) -> Seq<Seq<char>> {
    entry_header(zip, name)->0->Ok_0
}

/// What an entry of a ZIP file holds, where it can be read: its records.
pub open spec fn records_of(zip: Seq<u8>, name: Seq<char>) -> Seq<Seq<Seq<char>>> {
    entry_body(zip, name)->0->Ok_0
}

/// Whether an entry of a ZIP file can be read.
pub open spec fn is_readable(zip: Seq<u8>, name: Seq<char>) -> bool {
    &&& entry_header(zip, name) matches Some(h) && h is Ok
    &&& entry_body(zip, name) matches Some(b) && b is Ok
}

/// Whether a header has a column of that name.
pub open spec fn has_column(h: Seq<Seq<char>>, name: Seq<char>) -> bool {
    exists|i: int| 0 <= i < h.len() && #[trigger] h[i] == name
}

pub(crate) proof fn lemma_none_missing(h: Seq<Seq<char>>, needed: Seq<Seq<char>>)
    ensures
        first_missing(h, needed) is None <==> forall|k: int|
            0 <= k < needed.len() ==> has_column(h, #[trigger] needed[k]),
    decreases needed.len(),
{
    if needed.len() > 0 {
        let rest = needed.drop_first();
        lemma_none_missing(h, rest);
        crate::loader::a_column_is_where_its_name_stands(h, needed[0]);
        if column(h, needed[0]) is Some {
            assert(has_column(h, needed[0]));
        }
        assert forall|k: int| 0 <= k < rest.len() implies #[trigger] rest[k] == needed[k + 1] by {}
        if forall|k: int| 0 <= k < needed.len() ==> has_column(h, #[trigger] needed[k]) {
            assert forall|k: int| 0 <= k < rest.len() implies has_column(h, #[trigger] rest[k]) by {
                assert(has_column(h, needed[k + 1]));
            }
            assert(has_column(h, needed[0]));
        }
        if first_missing(h, needed) is None {
            assert forall|k: int| 0 <= k < needed.len() implies has_column(
                h,
                #[trigger] needed[k],
            ) by {
                if k > 0 {
                    assert(needed[k] == rest[k - 1]);
                }
            }
        }
    }
}

/// Whether a ZIP file holds a readable `stops.txt` with the columns that it has to
/// have.
pub open spec fn has_stops(zip: Seq<u8>) -> bool {
    let h = header_of(zip, "stops.txt"@);
    &&& is_readable(zip, "stops.txt"@)
    &&& has_column(h, "stop_id"@)
    &&& has_column(h, "stop_name"@)
    &&& has_column(h, "stop_lat"@)
    &&& has_column(h, "stop_lon"@)
}

proof fn lemma_has_stops(zip: Seq<u8>)
    ensures
        file_in(zip, GtfsFile::Stops.layout()) is Ok <==> has_stops(zip),
        has_stops(zip) ==> file_in(zip, GtfsFile::Stops.layout())->Ok_0 == (
            header_of(zip, "stops.txt"@),
            records_of(zip, "stops.txt"@),
        ),
{
    let h = header_of(zip, "stops.txt"@);
    let needed = GtfsFile::Stops.layout().1;
    lemma_none_missing(h, needed);
    if has_stops(zip) {
        assert forall|k: int| 0 <= k < needed.len() implies has_column(
            h,
            #[trigger] needed[k],
        ) by {}
    }
    if file_in(zip, GtfsFile::Stops.layout()) is Ok {
        assert(has_column(h, needed[0]));
        assert(has_column(h, needed[1]));
        assert(has_column(h, needed[2]));
        assert(has_column(h, needed[3]));
    }
}

/// Whether a ZIP file holds a readable `routes.txt` with the columns that it has to
/// have.
pub open spec fn has_routes(zip: Seq<u8>) -> bool {
    let h = header_of(zip, "routes.txt"@);
    &&& is_readable(zip, "routes.txt"@)
    &&& has_column(h, "route_id"@)
    &&& has_column(h, "route_short_name"@)
    &&& has_column(h, "route_long_name"@)
    &&& has_column(h, "route_type"@)
}

proof fn lemma_has_routes(zip: Seq<u8>)
    ensures
        file_in(zip, GtfsFile::Routes.layout()) is Ok <==> has_routes(zip),
        has_routes(zip) ==> file_in(zip, GtfsFile::Routes.layout())->Ok_0 == (
            header_of(zip, "routes.txt"@),
            records_of(zip, "routes.txt"@),
        ),
{
    let h = header_of(zip, "routes.txt"@);
    let needed = GtfsFile::Routes.layout().1;
    lemma_none_missing(h, needed);
    if has_routes(zip) {
        assert forall|k: int| 0 <= k < needed.len() implies has_column(
            h,
            #[trigger] needed[k],
        ) by {}
    }
    if file_in(zip, GtfsFile::Routes.layout()) is Ok {
        assert(has_column(h, needed[0]));
        assert(has_column(h, needed[1]));
        assert(has_column(h, needed[2]));
        assert(has_column(h, needed[3]));
    }
}

/// Whether a ZIP file holds a readable `trips.txt` with the columns that it has to
/// have.
pub open spec fn has_trips(zip: Seq<u8>) -> bool {
    let h = header_of(zip, "trips.txt"@);
    &&& is_readable(zip, "trips.txt"@)
    &&& has_column(h, "trip_id"@)
    &&& has_column(h, "route_id"@)
    &&& has_column(h, "service_id"@)
    &&& has_column(h, "trip_headsign"@)
}

proof fn lemma_has_trips(zip: Seq<u8>)
    ensures
        file_in(zip, GtfsFile::Trips.layout()) is Ok <==> has_trips(zip),
        has_trips(zip) ==> file_in(zip, GtfsFile::Trips.layout())->Ok_0 == (
            header_of(zip, "trips.txt"@),
            records_of(zip, "trips.txt"@),
        ),
{
    let h = header_of(zip, "trips.txt"@);
    let needed = GtfsFile::Trips.layout().1;
    lemma_none_missing(h, needed);
    if has_trips(zip) {
        assert forall|k: int| 0 <= k < needed.len() implies has_column(
            h,
            #[trigger] needed[k],
        ) by {}
    }
    if file_in(zip, GtfsFile::Trips.layout()) is Ok {
        assert(has_column(h, needed[0]));
        assert(has_column(h, needed[1]));
        assert(has_column(h, needed[2]));
        assert(has_column(h, needed[3]));
    }
}

/// Whether a ZIP file holds a readable `stop_times.txt` with the columns that it has to
/// have.
pub open spec fn has_stop_times(zip: Seq<u8>) -> bool {
    let h = header_of(zip, "stop_times.txt"@);
    &&& is_readable(zip, "stop_times.txt"@)
    &&& has_column(h, "arrival_time"@)
    &&& has_column(h, "departure_time"@)
    &&& has_column(h, "stop_id"@)
    &&& has_column(h, "stop_sequence"@)
    &&& has_column(h, "trip_id"@)
}

proof fn lemma_has_stop_times(zip: Seq<u8>)
    ensures
        file_in(zip, GtfsFile::StopTimes.layout()) is Ok <==> has_stop_times(zip),
        has_stop_times(zip) ==> file_in(zip, GtfsFile::StopTimes.layout())->Ok_0 == (
            header_of(zip, "stop_times.txt"@),
            records_of(zip, "stop_times.txt"@),
        ),
{
    let h = header_of(zip, "stop_times.txt"@);
    let needed = GtfsFile::StopTimes.layout().1;
    lemma_none_missing(h, needed);
    if has_stop_times(zip) {
        assert forall|k: int| 0 <= k < needed.len() implies has_column(
            h,
            #[trigger] needed[k],
        ) by {}
    }
    if file_in(zip, GtfsFile::StopTimes.layout()) is Ok {
        assert(has_column(h, needed[0]));
        assert(has_column(h, needed[1]));
        assert(has_column(h, needed[2]));
        assert(has_column(h, needed[3]));
        assert(has_column(h, needed[4]));
    }
}

/// Whether a ZIP file holds a readable `calendar.txt` with the columns that it has to
/// have.
pub open spec fn has_calendar(zip: Seq<u8>) -> bool {
    let h = header_of(zip, "calendar.txt"@);
    &&& is_readable(zip, "calendar.txt"@)
    &&& has_column(h, "service_id"@)
    &&& has_column(h, "monday"@)
    &&& has_column(h, "tuesday"@)
    &&& has_column(h, "wednesday"@)
    &&& has_column(h, "thursday"@)
    &&& has_column(h, "friday"@)
    &&& has_column(h, "saturday"@)
    &&& has_column(h, "sunday"@)
    &&& has_column(h, "start_date"@)
    &&& has_column(h, "end_date"@)
}

proof fn lemma_has_calendar(zip: Seq<u8>)
    ensures
        file_in(zip, GtfsFile::Calendar.layout()) is Ok <==> has_calendar(zip),
        has_calendar(zip) ==> file_in(zip, GtfsFile::Calendar.layout())->Ok_0 == (
            header_of(zip, "calendar.txt"@),
            records_of(zip, "calendar.txt"@),
        ),
{
    let h = header_of(zip, "calendar.txt"@);
    let needed = GtfsFile::Calendar.layout().1;
    lemma_none_missing(h, needed);
    if has_calendar(zip) {
        assert forall|k: int| 0 <= k < needed.len() implies has_column(
            h,
            #[trigger] needed[k],
        ) by {}
    }
    if file_in(zip, GtfsFile::Calendar.layout()) is Ok {
        assert(has_column(h, needed[0]));
        assert(has_column(h, needed[1]));
        assert(has_column(h, needed[2]));
        assert(has_column(h, needed[3]));
        assert(has_column(h, needed[4]));
        assert(has_column(h, needed[5]));
        assert(has_column(h, needed[6]));
        assert(has_column(h, needed[7]));
        assert(has_column(h, needed[8]));
        assert(has_column(h, needed[9]));
    }
}

/// Whether a ZIP file holds a readable `calendar_dates.txt` with the columns that it has to
/// have.
pub open spec fn has_calendar_dates(zip: Seq<u8>) -> bool {
    let h = header_of(zip, "calendar_dates.txt"@);
    &&& is_readable(zip, "calendar_dates.txt"@)
    &&& has_column(h, "service_id"@)
    &&& has_column(h, "date"@)
    &&& has_column(h, "exception_type"@)
}

proof fn lemma_has_calendar_dates(zip: Seq<u8>)
    ensures
        file_in(zip, GtfsFile::CalendarDates.layout()) is Ok <==> has_calendar_dates(zip),
        has_calendar_dates(zip) ==> file_in(zip, GtfsFile::CalendarDates.layout())->Ok_0 == (
            header_of(zip, "calendar_dates.txt"@),
            records_of(zip, "calendar_dates.txt"@),
        ),
{
    let h = header_of(zip, "calendar_dates.txt"@);
    let needed = GtfsFile::CalendarDates.layout().1;
    lemma_none_missing(h, needed);
    if has_calendar_dates(zip) {
        assert forall|k: int| 0 <= k < needed.len() implies has_column(
            h,
            #[trigger] needed[k],
        ) by {}
    }
    if file_in(zip, GtfsFile::CalendarDates.layout()) is Ok {
        assert(has_column(h, needed[0]));
        assert(has_column(h, needed[1]));
        assert(has_column(h, needed[2]));
    }
}

/// A timetable is loaded exactly where it is a ZIP file with six readable files
/// that have their columns; without a ZIP file that is what is told.
pub proof fn a_timetable_needs_its_six_files(zip: &[u8], r: Result<GtfsTables, GtfsError>)
    requires
        call_ensures(load_zip, (zip,), r),
    ensures
        r is Ok <==> is_zip(zip@) && has_stops(zip@) && has_routes(zip@) && has_trips(zip@)
            && has_stop_times(zip@) && has_calendar(zip@) && has_calendar_dates(zip@),
        !is_zip(zip@) ==> r matches Err(GtfsError::Zip),
{
    let f = crate::loader::files();
    lemma_has_stops(zip@);
    lemma_has_routes(zip@);
    lemma_has_trips(zip@);
    lemma_has_stop_times(zip@);
    lemma_has_calendar(zip@);
    lemma_has_calendar_dates(zip@);
    lemma_no_fault(zip@, f);
    if crate::loader::first_fault(zip@, f) is None {
        assert(file_in(zip@, f[0]) is Ok && file_in(zip@, f[1]) is Ok && file_in(zip@, f[2]) is Ok);
        assert(file_in(zip@, f[3]) is Ok && file_in(zip@, f[4]) is Ok && file_in(zip@, f[5]) is Ok);
    }
    if has_stops(zip@) && has_routes(zip@) && has_trips(zip@) && has_stop_times(zip@)
        && has_calendar(zip@) && has_calendar_dates(zip@) {
        assert forall|k: int| 0 <= k < f.len() implies file_in(zip@, #[trigger] f[k]) is Ok by {}
    }
}

proof fn lemma_no_fault(zip: Seq<u8>, files: Seq<(Seq<char>, Seq<Seq<char>>)>)
    ensures
        crate::loader::first_fault(zip, files) is None <==> forall|k: int|
            0 <= k < files.len() ==> file_in(zip, #[trigger] files[k]) is Ok,
    decreases files.len(),
{
    if files.len() > 0 {
        let rest = files.drop_first();
        lemma_no_fault(zip, rest);
        assert forall|k: int| 0 <= k < rest.len() implies #[trigger] rest[k] == files[k + 1] by {}
        if forall|k: int| 0 <= k < files.len() ==> file_in(zip, #[trigger] files[k]) is Ok {
            assert(file_in(zip, files[0]) is Ok);
            assert forall|k: int| 0 <= k < rest.len() implies file_in(
                zip,
                #[trigger] rest[k],
            ) is Ok by {
                assert(file_in(zip, files[k + 1]) is Ok);
            }
        }
        if crate::loader::first_fault(zip, files) is None {
            assert forall|k: int| 0 <= k < files.len() implies file_in(
                zip,
                #[trigger] files[k],
            ) is Ok by {
                if k > 0 {
                    assert(files[k] == rest[k - 1]);
                }
            }
        }
    }
}

/// Each table of a loaded timetable is read from its own file, record by record.
pub proof fn each_table_is_read_from_its_file(zip: &[u8], r: Result<GtfsTables, GtfsError>)
    requires
        call_ensures(load_zip, (zip,), r),
        r is Ok,
    ensures
        ({
            let t = r->Ok_0;
            let z = zip@;
            &&& t.stops@.len() == records_of(z, "stops.txt"@).len()
            &&& forall|n: int|
                0 <= n < t.stops@.len() ==> tells_stop(
                    #[trigger] t.stops@[n],
                    header_of(z, "stops.txt"@),
                    records_of(z, "stops.txt"@)[n],
                )
            &&& t.routes@.len() == records_of(z, "routes.txt"@).len()
            &&& forall|n: int|
                0 <= n < t.routes@.len() ==> tells_route(
                    #[trigger] t.routes@[n],
                    header_of(z, "routes.txt"@),
                    records_of(z, "routes.txt"@)[n],
                )
            &&& t.trips@.len() == records_of(z, "trips.txt"@).len()
            &&& forall|n: int|
                0 <= n < t.trips@.len() ==> tells_trip(
                    #[trigger] t.trips@[n],
                    header_of(z, "trips.txt"@),
                    records_of(z, "trips.txt"@)[n],
                )
            &&& t.calendar@.len() == records_of(z, "calendar.txt"@).len()
            &&& forall|n: int|
                0 <= n < t.calendar@.len() ==> tells_calendar(
                    #[trigger] t.calendar@[n],
                    header_of(z, "calendar.txt"@),
                    records_of(z, "calendar.txt"@)[n],
                )
            &&& t.calendar_dates@.len() == records_of(z, "calendar_dates.txt"@).len()
            &&& forall|n: int|
                0 <= n < t.calendar_dates@.len() ==> tells_calendar_date(
                    #[trigger] t.calendar_dates@[n],
                    header_of(z, "calendar_dates.txt"@),
                    records_of(z, "calendar_dates.txt"@)[n],
                )
        }),
{
    let t = r->Ok_0;
    let z = zip@;
    a_timetable_needs_its_six_files(zip, r);
    lemma_has_stops(z);
    lemma_has_routes(z);
    lemma_has_trips(z);
    lemma_has_stop_times(z);
    lemma_has_calendar(z);
    lemma_has_calendar_dates(z);
    assert forall|n: int| 0 <= n < t.stops@.len() implies tells_stop(
        #[trigger] t.stops@[n],
        header_of(z, "stops.txt"@),
        records_of(z, "stops.txt"@)[n],
    ) by {
        assert(is_stop(t.stops@[n], header_of(z, "stops.txt"@), records_of(z, "stops.txt"@)[n]));
        lemma_tells_stop(t.stops@[n], header_of(z, "stops.txt"@), records_of(z, "stops.txt"@)[n]);
    }
    assert forall|n: int| 0 <= n < t.routes@.len() implies tells_route(
        #[trigger] t.routes@[n],
        header_of(z, "routes.txt"@),
        records_of(z, "routes.txt"@)[n],
    ) by {
        assert(is_route(t.routes@[n], header_of(z, "routes.txt"@), records_of(z, "routes.txt"@)[n]));
        lemma_tells_route(t.routes@[n], header_of(z, "routes.txt"@), records_of(z, "routes.txt"@)[n]);
    }
    assert forall|n: int| 0 <= n < t.trips@.len() implies tells_trip(
        #[trigger] t.trips@[n],
        header_of(z, "trips.txt"@),
        records_of(z, "trips.txt"@)[n],
    ) by {
        assert(is_trip(t.trips@[n], header_of(z, "trips.txt"@), records_of(z, "trips.txt"@)[n]));
        lemma_tells_trip(t.trips@[n], header_of(z, "trips.txt"@), records_of(z, "trips.txt"@)[n]);
    }
    assert forall|n: int| 0 <= n < t.calendar@.len() implies tells_calendar(
        #[trigger] t.calendar@[n],
        header_of(z, "calendar.txt"@),
        records_of(z, "calendar.txt"@)[n],
    ) by {
        assert(is_calendar(t.calendar@[n], header_of(z, "calendar.txt"@), records_of(z, "calendar.txt"@)[n]));
        lemma_tells_calendar(t.calendar@[n], header_of(z, "calendar.txt"@), records_of(z, "calendar.txt"@)[n]);
    }
    assert forall|n: int| 0 <= n < t.calendar_dates@.len() implies tells_calendar_date(
        #[trigger] t.calendar_dates@[n],
        header_of(z, "calendar_dates.txt"@),
        records_of(z, "calendar_dates.txt"@)[n],
    ) by {
        assert(is_calendar_date(t.calendar_dates@[n], header_of(z, "calendar_dates.txt"@), records_of(z, "calendar_dates.txt"@)[n]));
        lemma_tells_calendar_date(t.calendar_dates@[n], header_of(z, "calendar_dates.txt"@), records_of(z, "calendar_dates.txt"@)[n]);
    }
}

/// Each call of a loaded timetable is read from a record of `stop_times.txt`.
pub proof fn each_call_is_read_from_its_file(
    zip: &[u8],
    r: Result<GtfsTables, GtfsError>,
    n: int,
) -> (m: int)
    requires
        call_ensures(load_zip, (zip,), r),
        r is Ok,
        0 <= n < r->Ok_0.stop_times@.len(),
    ensures
        0 <= m < records_of(zip@, "stop_times.txt"@).len(),
        tells_stop_time(
            r->Ok_0.stop_times@[n],
            header_of(zip@, "stop_times.txt"@),
            records_of(zip@, "stop_times.txt"@)[m],
        ),
{
    let t = r->Ok_0;
    let z = zip@;
    a_timetable_needs_its_six_files(zip, r);
    lemma_has_stop_times(z);
    let h = header_of(z, "stop_times.txt"@);
    let all = records_of(z, "stop_times.txt"@);
    let kept = crate::loader::placed_records(h, all);
    crate::table::lemma_filter_items(all, crate::loader::is_placed(h));
    assert(is_stop_time(t.stop_times@[n], h, kept[n]));
    assert(all.contains(kept[n]));
    lemma_tells_stop_time(t.stop_times@[n], h, kept[n]);
    choose|m: int| 0 <= m < all.len() && all[m] == kept[n]
}

/// Every record of `stop_times.txt` whose place in the trip is an integer is
/// loaded.
pub proof fn every_placed_record_is_loaded(
    zip: &[u8],
    r: Result<GtfsTables, GtfsError>,
    m: int,
    i: int,
) -> (n: int)
    requires
        call_ensures(load_zip, (zip,), r),
        r is Ok,
        0 <= m < records_of(zip@, "stop_times.txt"@).len(),
        heads(header_of(zip@, "stop_times.txt"@), i, "stop_sequence"@),
        i < records_of(zip@, "stop_times.txt"@)[m].len(),
        i64_of(records_of(zip@, "stop_times.txt"@)[m][i]) is Some,
    ensures
        0 <= n < r->Ok_0.stop_times@.len(),
        tells_stop_time(
            r->Ok_0.stop_times@[n],
            header_of(zip@, "stop_times.txt"@),
            records_of(zip@, "stop_times.txt"@)[m],
        ),
{
    let t = r->Ok_0;
    let z = zip@;
    a_timetable_needs_its_six_files(zip, r);
    lemma_has_stop_times(z);
    let h = header_of(z, "stop_times.txt"@);
    let all = records_of(z, "stop_times.txt"@);
    let p = crate::loader::is_placed(h);
    let kept = crate::loader::placed_records(h, all);
    lemma_heads(h, "stop_sequence"@);
    crate::table::lemma_filter_items(all, p);
    assert(p(all[m]) && all.contains(all[m]));
    assert(kept.contains(all[m]));
    let n = choose|n: int| 0 <= n < kept.len() && kept[n] == all[m];
    assert(is_stop_time(t.stop_times@[n], h, kept[n]));
    lemma_tells_stop_time(t.stop_times@[n], h, kept[n]);
    n
}

/// The files of a timetable, in the order in which they are read.
pub open spec fn file_names() -> Seq<Seq<char>> {
    seq![
        "stops.txt"@,
        "routes.txt"@,
        "trips.txt"@,
        "stop_times.txt"@,
        "calendar.txt"@,
        "calendar_dates.txt"@,
    ]
}

/// Whether file `k` of a timetable can be read and has its columns.
pub open spec fn is_whole(zip: Seq<u8>, k: int) -> bool {
    &&& k == 0 ==> has_stops(zip)
    &&& k == 1 ==> has_routes(zip)
    &&& k == 2 ==> has_trips(zip)
    &&& k == 3 ==> has_stop_times(zip)
    &&& k == 4 ==> has_calendar(zip)
    &&& k == 5 ==> has_calendar_dates(zip)
}

proof fn lemma_whole(zip: Seq<u8>, k: int)
    requires
        0 <= k < 6,
    ensures
        file_in(zip, crate::loader::files()[k]) is Ok <==> is_whole(zip, k),
        crate::loader::files()[k].0 == file_names()[k],
{
    lemma_has_stops(zip);
    lemma_has_routes(zip);
    lemma_has_trips(zip);
    lemma_has_stop_times(zip);
    lemma_has_calendar(zip);
    lemma_has_calendar_dates(zip);
}

/// The first file with which something is wrong decides what is told: that it is
/// missing, why its header or a record cannot be read, or which column it lacks.
pub proof fn the_first_faulty_file_is_told(
    zip: &[u8],
    r: Result<GtfsTables, GtfsError>,
    k: int,
)
    requires
        call_ensures(load_zip, (zip,), r),
        is_zip(zip@),
        0 <= k < 6,
        forall|j: int| 0 <= j < k ==> #[trigger] is_whole(zip@, j),
        !is_whole(zip@, k),
    ensures
        ({
            let name = file_names()[k];
            let header = entry_header(zip@, name);
            let body = entry_body(zip@, name);
            &&& header is None ==> (r matches Err(GtfsError::MissingEntry(m)) && m@ == name)
            &&& header matches Some(Err(message)) ==> (r matches Err(GtfsError::Csv(m)) && m@
                == message)
            &&& header matches Some(Ok(h)) ==> {
                ||| r matches Err(GtfsError::MissingColumn(m)) && !has_column(h, m@)
                ||| body is None && (r matches Err(GtfsError::MissingEntry(m)) && m@ == name)
                ||| (body matches Some(Err(message)) && r matches Err(GtfsError::Csv(m)) && m@
                    == message)
            }
        }),
{
    let f = crate::loader::files();
    assert forall|j: int| 0 <= j < k implies file_in(zip@, #[trigger] f[j]) is Ok by {
        assert(is_whole(zip@, j));
        lemma_whole(zip@, j);
    }
    lemma_whole(zip@, k);
    crate::loader::lemma_first_fault(zip@, f, k);
    let name = file_names()[k];
    if let Some(Ok(h)) = entry_header(zip@, name) {
        lemma_missing(h, f[k].1);
    }
}

proof fn lemma_missing(h: Seq<Seq<char>>, needed: Seq<Seq<char>>)
    ensures
        first_missing(h, needed) matches Some(name) ==> !has_column(h, name) && needed.contains(
            name,
        ),
    decreases needed.len(),
{
    if needed.len() > 0 {
        let rest = needed.drop_first();
        lemma_missing(h, rest);
        crate::loader::a_column_is_where_its_name_stands(h, needed[0]);
        if column(h, needed[0]) is None {
            assert(needed[0] == needed[0]);
        } else if let Some(name) = first_missing(h, rest) {
            let k = choose|k: int| 0 <= k < rest.len() && rest[k] == name;
            assert(needed[k + 1] == name);
        }
    }
}

/// Whether a coordinate is not the number zero, of either sign.
pub open spec fn is_off_zero(d: Degrees) -> bool {
    d.bits != 0 && d.bits != 0x8000_0000_0000_0000
}

/// A stop that is kept has all that was read of it, at its position, which is not
/// zero and zero.
pub proof fn a_kept_stop_has_a_position(
    stops: &[UnlocatedStop],
    positions: &[(Degrees, Degrees)],
    r: Vec<StopRow>,
    n: int,
) -> (m: int)
    requires
        stops@.len() == positions@.len(),
        call_ensures(locate_stops, (stops, positions), r),
        0 <= n < r@.len(),
    ensures
        0 <= m < stops@.len(),
        is_stop_located(r@[n], stops@[m], positions@[m]),
{
    let all = Seq::new(
        stops@.len(),
        |i: int| crate::loader::stop_at(stops@[i], positions@[i]),
    );
    let p = |s: StopRow| !(crate::loader::is_zero(s.lat) && crate::loader::is_zero(s.lon));
    crate::table::lemma_filter_items(all, p);
    assert(r@ == all.filter(p));
    assert(p(r@[n]) && all.contains(r@[n]));
    choose|m: int| 0 <= m < all.len() && all[m] == r@[n]
}

/// A stop with a latitude or a longitude other than zero is kept.
pub proof fn a_stop_with_a_position_is_kept(
    stops: &[UnlocatedStop],
    positions: &[(Degrees, Degrees)],
    r: Vec<StopRow>,
    m: int,
) -> (n: int)
    requires
        stops@.len() == positions@.len(),
        call_ensures(locate_stops, (stops, positions), r),
        0 <= m < stops@.len(),
        is_off_zero(positions@[m].0) || is_off_zero(positions@[m].1),
    ensures
        0 <= n < r@.len(),
        is_stop_located(r@[n], stops@[m], positions@[m]),
{
    let all = Seq::new(
        stops@.len(),
        |i: int| crate::loader::stop_at(stops@[i], positions@[i]),
    );
    let p = |s: StopRow| !(crate::loader::is_zero(s.lat) && crate::loader::is_zero(s.lon));
    crate::table::lemma_filter_items(all, p);
    assert(r@ == all.filter(p));
    assert(p(all[m]) && all.contains(all[m]));
    assert(r@.contains(all[m]));
    choose|n: int| 0 <= n < r@.len() && r@[n] == all[m]
}

/// Whether `s` is an unlocated stop at a position that is not zero and zero.
pub open spec fn is_stop_located(
    s: StopRow,
    from: UnlocatedStop,
    at: (Degrees, Degrees),
) -> bool {
    &&& s.stop_id == from.stop_id
    &&& s.stop_name == from.stop_name
    &&& s.stop_desc == from.stop_desc
    &&& s.lat == at.0
    &&& s.lon == at.1
    &&& s.wheelchair == from.wheelchair
    &&& s.zone_id == from.zone_id
    &&& s.parent_station == from.parent_station
    &&& is_off_zero(s.lat) || is_off_zero(s.lon)
}

} // verus!
