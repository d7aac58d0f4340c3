//! Laws of a timetable as a whole: which of the loaded rows it holds.

use crate::gtfs::GtfsStats;
use crate::laws::capture::{lemma_stays, stays};
use crate::loader::{
    CalendarDateRow, CalendarRow, GtfsTables, RouteRow, StopRow, StopTimeRow, TripRow,
};
use crate::timetable::{
    same_exception, same_route, same_service, same_stop, same_stop_time, same_trip, GtfsRepo,
};
use vstd::prelude::*;

verus! {

/// Whether two rows are of one stop.
pub open spec fn one_stop(a: StopRow, b: StopRow) -> bool {
    a.stop_id@ == b.stop_id@
}

/// Whether two rows are of one line.
pub open spec fn one_route(a: RouteRow, b: RouteRow) -> bool {
    a.route_id@ == b.route_id@
}

/// Whether two rows are of one trip.
pub open spec fn one_trip(a: TripRow, b: TripRow) -> bool {
    a.trip_id@ == b.trip_id@
}

/// Whether two rows are of one trip at one place in it.
pub open spec fn one_call(a: StopTimeRow, b: StopTimeRow) -> bool {
    a.trip_id@ == b.trip_id@ && a.stop_sequence == b.stop_sequence
}

/// Whether two rows are of one service.
pub open spec fn one_service(a: CalendarRow, b: CalendarRow) -> bool {
    a.service_id@ == b.service_id@
}

/// Whether two rows are of one service on one date.
pub open spec fn one_exception(a: CalendarDateRow, b: CalendarDateRow) -> bool {
    a.service_id@ == b.service_id@ && a.date@ == b.date@
}

/// Whether a table holds, of the rows that were given, the last under each key,
/// `one` telling keys apart, and none but those, no key twice.
pub open spec fn holds_the_last<T>(
    table: Seq<T>,
    rows: Seq<T>,
    one: spec_fn(T, T) -> bool,
) -> bool {
    &&& forall|row: T| #[trigger] table.contains(row) <==> exists|k: int|
        0 <= k < rows.len() && #[trigger] rows[k] == row && forall|j: int|
            k < j < rows.len() ==> !one(#[trigger] rows[j], row)
    &&& forall|i: int, j: int|
        0 <= i < j < table.len() ==> !one(#[trigger] table[i], #[trigger] table[j])
}

pub(crate) proof fn lemma_holds_the_last<T>(
    rows: Seq<T>,
    same: spec_fn(T, T) -> bool,
    one: spec_fn(T, T) -> bool,
)
    requires
        crate::table::is_key(same),
        forall|a: T, b: T| #[trigger] same(a, b) == one(a, b),
    ensures
        holds_the_last(crate::table::all_written(Seq::<T>::empty(), rows, same), rows, one),
{
    let none = Seq::<T>::empty();
    let table = crate::table::all_written(none, rows, same);
    lemma_stays(none, rows, same, one);
    crate::table::all_written_is_keyed(none, rows, same);
    assert forall|row: T| #[trigger] table.contains(row) <==> exists|k: int|
        0 <= k < rows.len() && #[trigger] rows[k] == row && forall|j: int|
            k < j < rows.len() ==> !one(#[trigger] rows[j], row) by {
        assert(!none.contains(row));
        assert(stays(none, rows, one, row) <==> exists|k: int|
            0 <= k < rows.len() && #[trigger] rows[k] == row && forall|j: int|
                k < j < rows.len() ==> !one(#[trigger] rows[j], row));
    }
    assert forall|i: int, j: int| 0 <= i < j < table.len() implies !one(
        #[trigger] table[i],
        #[trigger] table[j],
    ) by {
        assert(!same(table[i], table[j]));
    }
}

/// Whether a timetable holds of each table the last row under each key.
pub open spec fn holds_all(
    repo: GtfsRepo,
    stops: Seq<StopRow>,
    routes: Seq<RouteRow>,
    trips: Seq<TripRow>,
    stop_times: Seq<StopTimeRow>,
    calendar: Seq<CalendarRow>,
    calendar_dates: Seq<CalendarDateRow>,
) -> bool {
    &&& holds_the_last(repo.stops@, stops, |a: StopRow, b: StopRow| one_stop(a, b))
    &&& holds_the_last(repo.routes@, routes, |a: RouteRow, b: RouteRow| one_route(a, b))
    &&& holds_the_last(repo.trips@, trips, |a: TripRow, b: TripRow| one_trip(a, b))
    &&& holds_the_last(
        repo.stop_times@,
        stop_times,
        |a: StopTimeRow, b: StopTimeRow| one_call(a, b),
    )
    &&& holds_the_last(
        repo.calendar@,
        calendar,
        |a: CalendarRow, b: CalendarRow| one_service(a, b),
    )
    &&& holds_the_last(
        repo.calendar_dates@,
        calendar_dates,
        |a: CalendarDateRow, b: CalendarDateRow| one_exception(a, b),
    )
}

proof fn lemma_holds_all(
    stops: Seq<StopRow>,
    routes: Seq<RouteRow>,
    trips: Seq<TripRow>,
    stop_times: Seq<StopTimeRow>,
    calendar: Seq<CalendarRow>,
    calendar_dates: Seq<CalendarDateRow>,
)
    ensures
        holds_the_last(
            crate::table::all_written(Seq::<StopRow>::empty(), stops, same_stop()),
            stops,
            |a: StopRow, b: StopRow| one_stop(a, b),
        ),
        holds_the_last(
            crate::table::all_written(Seq::<RouteRow>::empty(), routes, same_route()),
            routes,
            |a: RouteRow, b: RouteRow| one_route(a, b),
        ),
        holds_the_last(
            crate::table::all_written(Seq::<TripRow>::empty(), trips, same_trip()),
            trips,
            |a: TripRow, b: TripRow| one_trip(a, b),
        ),
        holds_the_last(
            crate::table::all_written(
                Seq::<StopTimeRow>::empty(),
                stop_times,
                same_stop_time(),
            ),
            stop_times,
            |a: StopTimeRow, b: StopTimeRow| one_call(a, b),
        ),
        holds_the_last(
            crate::table::all_written(Seq::<CalendarRow>::empty(), calendar, same_service()),
            calendar,
            |a: CalendarRow, b: CalendarRow| one_service(a, b),
        ),
        holds_the_last(
            crate::table::all_written(
                Seq::<CalendarDateRow>::empty(),
                calendar_dates,
                same_exception(),
            ),
            calendar_dates,
            |a: CalendarDateRow, b: CalendarDateRow| one_exception(a, b),
        ),
{
    lemma_holds_the_last(stops, same_stop(), |a: StopRow, b: StopRow| one_stop(a, b));
    lemma_holds_the_last(routes, same_route(), |a: RouteRow, b: RouteRow| one_route(a, b));
    lemma_holds_the_last(trips, same_trip(), |a: TripRow, b: TripRow| one_trip(a, b));
    lemma_holds_the_last(
        stop_times,
        same_stop_time(),
        |a: StopTimeRow, b: StopTimeRow| one_call(a, b),
    );
    lemma_holds_the_last(
        calendar,
        same_service(),
        |a: CalendarRow, b: CalendarRow| one_service(a, b),
    );
    lemma_holds_the_last(
        calendar_dates,
        same_exception(),
        |a: CalendarDateRow, b: CalendarDateRow| one_exception(a, b),
    );
}

/// A timetable holds, of the rows that it is opened on, the last under each key:
/// stop, line, trip, trip and place, service, service and date.
pub proof fn a_timetable_holds_the_last_row_of_each_key(
    stops: &[StopRow],
    routes: &[RouteRow],
    trips: &[TripRow],
    stop_times: &[StopTimeRow],
    calendar: &[CalendarRow],
    calendar_dates: &[CalendarDateRow],
    r: GtfsRepo,
)
    requires
        call_ensures(
            GtfsRepo::open,
            (stops, routes, trips, stop_times, calendar, calendar_dates),
            r,
        ),
    ensures
        holds_all(r, stops@, routes@, trips@, stop_times@, calendar@, calendar_dates@),
{
    lemma_holds_all(stops@, routes@, trips@, stop_times@, calendar@, calendar_dates@);
}

/// Loading a timetable anew leaves nothing of what was there: it then holds the
/// rows that were read, the last under each key. The counts are those of the rows
/// that were read.
pub proof fn loading_anew_leaves_only_what_was_read(
    repo: &mut GtfsRepo,
    tables: &GtfsTables,
    stops: &[StopRow],
    r: GtfsStats,
)
    requires
        call_ensures(GtfsRepo::reload, (repo, tables, stops), r),
        stops@.len() <= usize::MAX,
        tables.routes@.len() <= usize::MAX,
        tables.trips@.len() <= usize::MAX,
        tables.stop_times@.len() <= usize::MAX,
        tables.calendar@.len() <= usize::MAX,
        tables.calendar_dates@.len() <= usize::MAX,
    ensures
        holds_all(
            *final(repo),
            stops@,
            tables.routes@,
            tables.trips@,
            tables.stop_times@,
            tables.calendar@,
            tables.calendar_dates@,
        ),
        r.stops == stops@.len(),
        r.routes == tables.routes@.len(),
        r.trips == tables.trips@.len(),
        r.stop_times == tables.stop_times@.len(),
        r.calendar == tables.calendar@.len(),
        r.calendar_dates == tables.calendar_dates@.len(),
{
    lemma_holds_all(
        stops@,
        tables.routes@,
        tables.trips@,
        tables.stop_times@,
        tables.calendar@,
        tables.calendar_dates@,
    );
}

} // verus!
