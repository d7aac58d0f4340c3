//! Loading a timetable anew: what was there before makes room for the rows that
//! were read.

use crate::domain::{text_of, Degrees};
use crate::gtfs::GtfsStats;
use crate::loader::{
    count_rows, file_in, files, holds_tables, is_zero, located, placed_records, stop_at,
    CalendarDateRow, CalendarRow, GtfsTables, RouteRow, StopRow, StopTimeRow, TripRow,
};
use crate::table::{all_written, lemma_filter_pairwise, like_rows_make_like_tables, pairwise};
use crate::timetable::{
    same_exception, same_route, same_service, same_stop, same_stop_time, same_trip, GtfsRepo,
};
use vstd::prelude::*;

verus! {

/// Whether two stops tell the same.
pub open spec fn like_stop() -> spec_fn(StopRow, StopRow) -> bool {
    |a: StopRow, b: StopRow|
        {
            &&& a.stop_id@ == b.stop_id@
            &&& a.stop_name@ == b.stop_name@
            &&& text_of(a.stop_desc) == text_of(b.stop_desc)
            &&& a.lat == b.lat
            &&& a.lon == b.lon
            &&& a.wheelchair == b.wheelchair
            &&& text_of(a.zone_id) == text_of(b.zone_id)
            &&& text_of(a.parent_station) == text_of(b.parent_station)
        }
}

/// Whether two lines tell the same.
pub open spec fn like_route() -> spec_fn(RouteRow, RouteRow) -> bool {
    |a: RouteRow, b: RouteRow|
        {
            &&& a.route_id@ == b.route_id@
            &&& a.short_name@ == b.short_name@
            &&& a.long_name@ == b.long_name@
            &&& a.route_type == b.route_type
            &&& text_of(a.color) == text_of(b.color)
        }
}

/// Whether two trips tell the same.
pub open spec fn like_trip() -> spec_fn(TripRow, TripRow) -> bool {
    |a: TripRow, b: TripRow|
        {
            &&& a.trip_id@ == b.trip_id@
            &&& a.route_id@ == b.route_id@
            &&& a.service_id@ == b.service_id@
            &&& a.headsign@ == b.headsign@
            &&& a.direction == b.direction
        }
}

/// Whether two calls tell the same.
pub open spec fn like_stop_time() -> spec_fn(StopTimeRow, StopTimeRow) -> bool {
    |a: StopTimeRow, b: StopTimeRow|
        {
            &&& a.trip_id@ == b.trip_id@
            &&& a.stop_sequence == b.stop_sequence
            &&& a.stop_id@ == b.stop_id@
            &&& a.arrival_secs == b.arrival_secs
            &&& a.departure_secs == b.departure_secs
        }
}

/// Whether two services tell the same.
pub open spec fn like_service() -> spec_fn(CalendarRow, CalendarRow) -> bool {
    |a: CalendarRow, b: CalendarRow|
        {
            &&& a.service_id@ == b.service_id@
            &&& a.monday == b.monday
            &&& a.tuesday == b.tuesday
            &&& a.wednesday == b.wednesday
            &&& a.thursday == b.thursday
            &&& a.friday == b.friday
            &&& a.saturday == b.saturday
            &&& a.sunday == b.sunday
            &&& a.start_date@ == b.start_date@
            &&& a.end_date@ == b.end_date@
        }
}

/// Whether two exceptions tell the same.
pub open spec fn like_exception() -> spec_fn(CalendarDateRow, CalendarDateRow) -> bool {
    |a: CalendarDateRow, b: CalendarDateRow|
        {
            &&& a.service_id@ == b.service_id@
            &&& a.date@ == b.date@
            &&& a.exception_type == b.exception_type
        }
}

impl GtfsRepo {
    /// Whether two timetables tell the same, row by row.
    pub open spec fn same_as(self, other: GtfsRepo) -> bool {
        &&& pairwise(self.stops@, other.stops@, like_stop())
        &&& pairwise(self.routes@, other.routes@, like_route())
        &&& pairwise(self.trips@, other.trips@, like_trip())
        &&& pairwise(self.stop_times@, other.stop_times@, like_stop_time())
        &&& pairwise(self.calendar@, other.calendar@, like_service())
        &&& pairwise(self.calendar_dates@, other.calendar_dates@, like_exception())
    }

    /// Whether the timetable holds the rows that were read, each written in its
    /// turn in the place of a row with its key, and nothing else.
    pub open spec fn holds_only(self, tables: GtfsTables, stops: Seq<StopRow>) -> bool {
        &&& self.stops@ == all_written(Seq::<StopRow>::empty(), stops, same_stop())
        &&& self.routes@ == all_written(
            Seq::<RouteRow>::empty(),
            tables.routes@,
            same_route(),
        )
        &&& self.trips@ == all_written(Seq::<TripRow>::empty(), tables.trips@, same_trip())
        &&& self.stop_times@ == all_written(
            Seq::<StopTimeRow>::empty(),
            tables.stop_times@,
            same_stop_time(),
        )
        &&& self.calendar@ == all_written(
            Seq::<CalendarRow>::empty(),
            tables.calendar@,
            same_service(),
        )
        &&& self.calendar_dates@ == all_written(
            Seq::<CalendarDateRow>::empty(),
            tables.calendar_dates@,
            same_exception(),
        )
    }

    /// Loads a timetable: the rows that were read take the place of all that was
    /// there before. Says how many rows of each table were read. `stops` are the
    /// stops that have a position.
    pub fn reload(&mut self, tables: &GtfsTables, stops: &[StopRow]) -> (r: GtfsStats)
        ensures
            final(self).wf(),
            final(self).holds_only(*tables, stops@),
            r == counts(*tables, stops@),
    {
        *self = GtfsRepo::open(
            stops,
            &tables.routes,
            &tables.trips,
            &tables.stop_times,
            &tables.calendar,
            &tables.calendar_dates,
        );
        count_rows(tables, stops)
    }
}

/// How many rows of each table were read.
pub open spec fn counts(tables: GtfsTables, stops: Seq<StopRow>) -> GtfsStats {
    GtfsStats {
        stops: stops.len() as usize,
        routes: tables.routes@.len() as usize,
        trips: tables.trips@.len() as usize,
        stop_times: tables.stop_times@.len() as usize,
        calendar: tables.calendar@.len() as usize,
        calendar_dates: tables.calendar_dates@.len() as usize,
    }
}

proof fn lemma_tables_alike(
    zip: Seq<u8>,
    t: GtfsTables,
    u: GtfsTables,
    positions: Seq<(Degrees, Degrees)>,
)
    requires
        holds_tables(t, zip),
        holds_tables(u, zip),
    ensures
        pairwise(located(t.stops@, positions), located(u.stops@, positions), like_stop()),
        pairwise(t.routes@, u.routes@, like_route()),
        pairwise(t.trips@, u.trips@, like_trip()),
        pairwise(t.stop_times@, u.stop_times@, like_stop_time()),
        pairwise(t.calendar@, u.calendar@, like_service()),
        pairwise(t.calendar_dates@, u.calendar_dates@, like_exception()),
{
    let a = Seq::new(t.stops@.len(), |i: int| stop_at(t.stops@[i], positions[i]));
    let b = Seq::new(u.stops@.len(), |i: int| stop_at(u.stops@[i], positions[i]));
    let p = |s: StopRow| !(is_zero(s.lat) && is_zero(s.lon));
    assert forall|i: int| 0 <= i < a.len() implies like_stop()(#[trigger] a[i], b[i]) && p(a[i])
        == p(b[i]) by {
        assert(a[i] == stop_at(t.stops@[i], positions[i]));
        assert(b[i] == stop_at(u.stops@[i], positions[i]));
    }
    lemma_filter_pairwise(a, b, like_stop(), p, p);
    assert forall|i: int| 0 <= i < t.routes@.len() implies like_route()(
        #[trigger] t.routes@[i],
        u.routes@[i],
    ) by {}
    assert forall|i: int| 0 <= i < t.trips@.len() implies like_trip()(
        #[trigger] t.trips@[i],
        u.trips@[i],
    ) by {}
    assert forall|i: int| 0 <= i < t.stop_times@.len() implies like_stop_time()(
        #[trigger] t.stop_times@[i],
        u.stop_times@[i],
    ) by {}
    assert forall|i: int| 0 <= i < t.calendar@.len() implies like_service()(
        #[trigger] t.calendar@[i],
        u.calendar@[i],
    ) by {}
    assert forall|i: int| 0 <= i < t.calendar_dates@.len() implies like_exception()(
        #[trigger] t.calendar_dates@[i],
        u.calendar_dates@[i],
    ) by {}
}

/// Loading the same ZIP file again, whatever the timetable held before, leaves
/// the same timetable and gives the same counts.
pub proof fn loading_again_changes_nothing(
    zip: Seq<u8>,
    t: GtfsTables,
    u: GtfsTables,
    positions: Seq<(Degrees, Degrees)>,
    once: GtfsRepo,
    again: GtfsRepo,
)
    requires
        holds_tables(t, zip),
        holds_tables(u, zip),
        once.holds_only(t, located(t.stops@, positions)),
        again.holds_only(u, located(u.stops@, positions)),
    ensures
        once.same_as(again),
        counts(t, located(t.stops@, positions)) == counts(u, located(u.stops@, positions)),
{
    lemma_tables_alike(zip, t, u, positions);
    like_rows_make_like_tables(
        Seq::<StopRow>::empty(),
        Seq::<StopRow>::empty(),
        located(t.stops@, positions),
        located(u.stops@, positions),
        same_stop(),
        like_stop(),
    );
    like_rows_make_like_tables(
        Seq::<RouteRow>::empty(),
        Seq::<RouteRow>::empty(),
        t.routes@,
        u.routes@,
        same_route(),
        like_route(),
    );
    like_rows_make_like_tables(
        Seq::<TripRow>::empty(),
        Seq::<TripRow>::empty(),
        t.trips@,
        u.trips@,
        same_trip(),
        like_trip(),
    );
    like_rows_make_like_tables(
        Seq::<StopTimeRow>::empty(),
        Seq::<StopTimeRow>::empty(),
        t.stop_times@,
        u.stop_times@,
        same_stop_time(),
        like_stop_time(),
    );
    like_rows_make_like_tables(
        Seq::<CalendarRow>::empty(),
        Seq::<CalendarRow>::empty(),
        t.calendar@,
        u.calendar@,
        same_service(),
        like_service(),
    );
    like_rows_make_like_tables(
        Seq::<CalendarDateRow>::empty(),
        Seq::<CalendarDateRow>::empty(),
        t.calendar_dates@,
        u.calendar_dates@,
        same_exception(),
        like_exception(),
    );
}

/// A file counts as many rows as it has records, but for the stops without a
/// position and the calls whose place in the trip is no integer.
pub proof fn the_counts_are_those_of_the_records(
    zip: Seq<u8>,
    t: GtfsTables,
    positions: Seq<(Degrees, Degrees)>,
)
    requires
        holds_tables(t, zip),
    ensures
        located(t.stops@, positions).len() <= file_in(zip, files()[0])->Ok_0.1.len(),
        t.routes@.len() == file_in(zip, files()[1])->Ok_0.1.len(),
        t.trips@.len() == file_in(zip, files()[2])->Ok_0.1.len(),
        t.stop_times@.len() == placed_records(
            file_in(zip, files()[3])->Ok_0.0,
            file_in(zip, files()[3])->Ok_0.1,
        ).len(),
        t.calendar@.len() == file_in(zip, files()[4])->Ok_0.1.len(),
        t.calendar_dates@.len() == file_in(zip, files()[5])->Ok_0.1.len(),
        (forall|i: int|
            0 <= i < t.stops@.len() ==> !(is_zero((#[trigger] positions[i]).0) && is_zero(
                positions[i].1,
            ))) ==> located(t.stops@, positions).len() == file_in(zip, files()[0])->Ok_0.1.len(),
{
    let all = Seq::new(t.stops@.len(), |i: int| stop_at(t.stops@[i], positions[i]));
    let p = |s: StopRow| !(is_zero(s.lat) && is_zero(s.lon));
    crate::table::lemma_filter_items(all, p);
    crate::table::lemma_filter_all(all, p);
    if forall|i: int|
        0 <= i < t.stops@.len() ==> !(is_zero((#[trigger] positions[i]).0) && is_zero(
            positions[i].1,
        )) {
        assert forall|i: int| 0 <= i < all.len() implies p(#[trigger] all[i]) by {
            assert(all[i] == stop_at(t.stops@[i], positions[i]));
            assert(!(is_zero(positions[i].0) && is_zero(positions[i].1)));
        }
    }
}

} // verus!
