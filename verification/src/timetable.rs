//! Asking the static timetable: stops by name, by place and by station, lines,
//! active services and planned departures.

use crate::domain::{is_within, within, Line, Stop, INFINITY, NEGATIVE_ZERO};
use crate::gtfs::{
    date_fault, mode_of, reads_as_written, route_type_to_mode, weekday_in, weekday_number,
    GtfsError,
};
use crate::loader::{CalendarDateRow, CalendarRow, RouteRow, StopRow, StopTimeRow, TripRow};
use crate::order::{ordered, sort_by};
use crate::table::{all_written, keyed, write_row};
use crate::text::{
    contains, has_text, lowercase, same_text, text_before, text_lt, to_lowercase, trim, trimmed,
};
use vstd::prelude::*;

verus! {

/// The key of a stop.
pub open spec fn same_stop() -> spec_fn(StopRow, StopRow) -> bool {
    |a: StopRow, b: StopRow| a.stop_id@ == b.stop_id@
}

/// The key of a line.
pub open spec fn same_route() -> spec_fn(RouteRow, RouteRow) -> bool {
    |a: RouteRow, b: RouteRow| a.route_id@ == b.route_id@
}

/// The key of a trip.
pub open spec fn same_trip() -> spec_fn(TripRow, TripRow) -> bool {
    |a: TripRow, b: TripRow| a.trip_id@ == b.trip_id@
}

/// The key of a call at a stop: the trip and the place in it.
pub open spec fn same_stop_time() -> spec_fn(StopTimeRow, StopTimeRow) -> bool {
    |a: StopTimeRow, b: StopTimeRow|
        a.trip_id@ == b.trip_id@ && a.stop_sequence == b.stop_sequence
}

/// The key of a service.
pub open spec fn same_service() -> spec_fn(CalendarRow, CalendarRow) -> bool {
    |a: CalendarRow, b: CalendarRow| a.service_id@ == b.service_id@
}

/// The key of an exception: the service and the date.
pub open spec fn same_exception() -> spec_fn(CalendarDateRow, CalendarDateRow) -> bool {
    |a: CalendarDateRow, b: CalendarDateRow|
        a.service_id@ == b.service_id@ && a.date@ == b.date@
}

fn is_same_stop(a: &StopRow, b: &StopRow) -> (r: bool)
    ensures
        r == same_stop()(*a, *b),
{
    same_text(&a.stop_id, &b.stop_id)
}

fn is_same_route(a: &RouteRow, b: &RouteRow) -> (r: bool)
    ensures
        r == same_route()(*a, *b),
{
    same_text(&a.route_id, &b.route_id)
}

fn is_same_trip(a: &TripRow, b: &TripRow) -> (r: bool)
    ensures
        r == same_trip()(*a, *b),
{
    same_text(&a.trip_id, &b.trip_id)
}

fn is_same_stop_time(a: &StopTimeRow, b: &StopTimeRow) -> (r: bool)
    ensures
        r == same_stop_time()(*a, *b),
{
    a.stop_sequence == b.stop_sequence && same_text(&a.trip_id, &b.trip_id)
}

fn is_same_service(a: &CalendarRow, b: &CalendarRow) -> (r: bool)
    ensures
        r == same_service()(*a, *b),
{
    same_text(&a.service_id, &b.service_id)
}

fn is_same_exception(a: &CalendarDateRow, b: &CalendarDateRow) -> (r: bool)
    ensures
        r == same_exception()(*a, *b),
{
    same_text(&a.date, &b.date) && same_text(&a.service_id, &b.service_id)
}

/// Writes rows into an empty table, one after the other.
fn write_all<T: Clone, F: Fn(&T, &T) -> bool + Copy>(
    rows: &[T],
    is_same: F,
    Ghost(same): Ghost<spec_fn(T, T) -> bool>,
) -> (r: Vec<T>)
    requires
        forall|a: &T, b: &T| call_requires(is_same, (a, b)),
        forall|a: &T, b: &T, c: bool| call_ensures(is_same, (a, b), c) ==> c == same(*a, *b),
        forall|a: T, b: T| #[trigger] cloned(a, b) ==> a == b,
    ensures
        r@ == all_written(Seq::<T>::empty(), rows@, same),
{
    let mut out: Vec<T> = Vec::new();
    let mut i: usize = 0;
    assert(rows@.take(0) =~= Seq::<T>::empty());
    assert(out@ =~= Seq::<T>::empty());
    while i < rows.len()
        invariant
            0 <= i <= rows@.len(),
            out@ == all_written(Seq::<T>::empty(), rows@.take(i as int), same),
            forall|a: &T, b: &T| call_requires(is_same, (a, b)),
            forall|a: &T, b: &T, c: bool| call_ensures(is_same, (a, b), c) ==> c == same(*a, *b),
            forall|a: T, b: T| #[trigger] cloned(a, b) ==> a == b,
        decreases rows@.len() - i,
    {
        proof {
            assert(rows@.take(i + 1).drop_last() =~= rows@.take(i as int));
            assert(rows@.take(i + 1).last() == rows@[i as int]);
        }
        let row = rows[i].clone();
        assert(cloned(rows@[i as int], row));
        write_row(&mut out, row, is_same, Ghost(same));
        i = i + 1;
    }
    assert(rows@.take(rows@.len() as int) =~= rows@);
    out
}

/// The static timetable, as tables.
pub struct GtfsRepo {
    pub stops: Vec<StopRow>,
    pub routes: Vec<RouteRow>,
    pub trips: Vec<TripRow>,
    pub stop_times: Vec<StopTimeRow>,
    pub calendar: Vec<CalendarRow>,
    pub calendar_dates: Vec<CalendarDateRow>,
}

impl GtfsRepo {
    /// Whether no table holds two rows with one key.
    pub open spec fn wf(self) -> bool {
        &&& keyed(self.stops@, same_stop())
        &&& keyed(self.routes@, same_route())
        &&& keyed(self.trips@, same_trip())
        &&& keyed(self.stop_times@, same_stop_time())
        &&& keyed(self.calendar@, same_service())
        &&& keyed(self.calendar_dates@, same_exception())
    }

    /// An empty timetable.
    pub fn open_in_memory() -> (r: Self)
        ensures
            r.wf(),
            r.stops@.len() == 0,
            r.routes@.len() == 0,
            r.trips@.len() == 0,
            r.stop_times@.len() == 0,
            r.calendar@.len() == 0,
            r.calendar_dates@.len() == 0,
    {
        GtfsRepo {
            stops: Vec::new(),
            routes: Vec::new(),
            trips: Vec::new(),
            stop_times: Vec::new(),
            calendar: Vec::new(),
            calendar_dates: Vec::new(),
        }
    }

    /// The timetable that the loaded rows make: each is written in its turn, in
    /// the place of a row with its key.
    pub fn open(
        stops: &[StopRow],
        routes: &[RouteRow],
        trips: &[TripRow],
        stop_times: &[StopTimeRow],
        calendar: &[CalendarRow],
        calendar_dates: &[CalendarDateRow],
    ) -> (r: Self)
        ensures
            r.wf(),
            r.stops@ == all_written(Seq::<StopRow>::empty(), stops@, same_stop()),
            r.routes@ == all_written(Seq::<RouteRow>::empty(), routes@, same_route()),
            r.trips@ == all_written(Seq::<TripRow>::empty(), trips@, same_trip()),
            r.stop_times@ == all_written(
                Seq::<StopTimeRow>::empty(),
                stop_times@,
                same_stop_time(),
            ),
            r.calendar@ == all_written(Seq::<CalendarRow>::empty(), calendar@, same_service()),
            r.calendar_dates@ == all_written(
                Seq::<CalendarDateRow>::empty(),
                calendar_dates@,
                same_exception(),
            ),
    {
        proof {
            lemma_tables_are_keyed(stops@, routes@, trips@, stop_times@, calendar@, calendar_dates@);
        }
        GtfsRepo {
            stops: write_all(stops, is_same_stop, Ghost(same_stop())),
            routes: write_all(routes, is_same_route, Ghost(same_route())),
            trips: write_all(trips, is_same_trip, Ghost(same_trip())),
            stop_times: write_all(stop_times, is_same_stop_time, Ghost(same_stop_time())),
            calendar: write_all(calendar, is_same_service, Ghost(same_service())),
            calendar_dates: write_all(calendar_dates, is_same_exception, Ghost(same_exception())),
        }
    }
}

proof fn lemma_tables_are_keyed(
    stops: Seq<StopRow>,
    routes: Seq<RouteRow>,
    trips: Seq<TripRow>,
    stop_times: Seq<StopTimeRow>,
    calendar: Seq<CalendarRow>,
    dates: Seq<CalendarDateRow>,
)
    ensures
        keyed(all_written(Seq::<StopRow>::empty(), stops, same_stop()), same_stop()),
        keyed(all_written(Seq::<RouteRow>::empty(), routes, same_route()), same_route()),
        keyed(all_written(Seq::<TripRow>::empty(), trips, same_trip()), same_trip()),
        keyed(
            all_written(Seq::<StopTimeRow>::empty(), stop_times, same_stop_time()),
            same_stop_time(),
        ),
        keyed(all_written(Seq::<CalendarRow>::empty(), calendar, same_service()), same_service()),
        keyed(
            all_written(Seq::<CalendarDateRow>::empty(), dates, same_exception()),
            same_exception(),
        ),
{
    crate::table::all_written_is_keyed(Seq::<StopRow>::empty(), stops, same_stop());
    crate::table::all_written_is_keyed(Seq::<RouteRow>::empty(), routes, same_route());
    crate::table::all_written_is_keyed(Seq::<TripRow>::empty(), trips, same_trip());
    crate::table::all_written_is_keyed(Seq::<StopTimeRow>::empty(), stop_times, same_stop_time());
    crate::table::all_written_is_keyed(Seq::<CalendarRow>::empty(), calendar, same_service());
    crate::table::all_written_is_keyed(Seq::<CalendarDateRow>::empty(), dates, same_exception());
}

impl StopRow {
    /// What is told of the stop to those who ask.
    pub open spec fn as_stop(self) -> Stop {
        Stop { stop_id: self.stop_id, name: self.stop_name, lat: self.lat, lon: self.lon }
    }

    pub(crate) fn to_stop(&self) -> (r: Stop)
        ensures
            r == self.as_stop(),
    {
        Stop {
            stop_id: self.stop_id.clone(),
            name: self.stop_name.clone(),
            lat: self.lat,
            lon: self.lon,
        }
    }
}

impl RouteRow {
    /// What is told of the line to those who ask.
    pub open spec fn as_line(self) -> Line {
        Line {
            route_id: self.route_id,
            short_name: self.short_name,
            long_name: self.long_name,
            mode: mode_of(self.route_type),
        }
    }

    fn to_line(&self) -> (r: Line)
        ensures
            r == self.as_line(),
    {
        Line {
            route_id: self.route_id.clone(),
            short_name: self.short_name.clone(),
            long_name: self.long_name.clone(),
            mode: route_type_to_mode(self.route_type),
        }
    }
}

/// Whether some trip calls at the stop.
pub open spec fn is_served(stop_times: Seq<StopTimeRow>, stop_id: Seq<char>) -> bool {
    exists|i: int| 0 <= i < stop_times.len() && (#[trigger] stop_times[i]).stop_id@ == stop_id
}

/// A stop near a point: its distance and whether it is served. The distance is
/// in metres, as the bits of its IEEE 754 double; those of distances, which are
/// never negative, order as the distances do.
#[derive(Debug)]
pub struct NearbyStop {
    pub stop: Stop,
    pub metres: u64,
    pub served: bool,
}

impl Clone for NearbyStop {
    fn clone(&self) -> (r: Self)
        ensures
            r == *self,
    {
        NearbyStop { stop: self.stop.clone(), metres: self.metres, served: self.served }
    }
}

impl From<Stop> for NearbyStop {
    fn from(stop: Stop) -> (r: Self) {
        NearbyStop { stop, metres: 0, served: true }
    }
}

impl vstd::std_specs::convert::FromSpecImpl<Stop> for NearbyStop {
    open spec fn obeys_from_spec() -> bool {
        true
    }

    open spec fn from_spec(stop: Stop) -> NearbyStop {
        NearbyStop { stop, metres: 0, served: true }
    }
}

/// A planned departure, in seconds from midnight of the day of service.
#[derive(Debug, PartialEq, Eq)]
pub struct ScheduledDeparture {
    pub trip_id: String,
    pub route_id: String,
    pub stop_sequence: i64,
    pub headsign: String,
    pub departure_secs: i64,
}

impl Clone for ScheduledDeparture {
    fn clone(&self) -> (r: Self)
        ensures
            r == *self,
    {
        ScheduledDeparture {
            trip_id: self.trip_id.clone(),
            route_id: self.route_id.clone(),
            stop_sequence: self.stop_sequence,
            headsign: self.headsign.clone(),
            departure_secs: self.departure_secs,
        }
    }
}

/// The first `limit` items of a sequence, or all where there are fewer.
pub open spec fn at_most<T>(s: Seq<T>, limit: int) -> Seq<T> {
    if s.len() > limit {
        s.take(limit)
    } else {
        s
    }
}

/// Served stops come first, then the names decide.
pub open spec fn served_then_name() -> spec_fn((Stop, bool), (Stop, bool)) -> bool {
    |a: (Stop, bool), b: (Stop, bool)|
        (a.1 && !b.1) || (a.1 == b.1 && text_lt(a.0.name@, b.0.name@))
}

fn served_or_name_before(a: &(Stop, bool), b: &(Stop, bool)) -> (r: bool)
    ensures
        r == served_then_name()(*a, *b),
{
    if a.1 == b.1 {
        text_before(&a.0.name, &b.0.name)
    } else {
        a.1
    }
}

/// Served stops come first, then the distances decide.
pub open spec fn served_then_near() -> spec_fn(NearbyStop, NearbyStop) -> bool {
    |a: NearbyStop, b: NearbyStop|
        (a.served && !b.served) || (a.served == b.served && a.metres < b.metres)
}

fn served_or_near_before(a: &NearbyStop, b: &NearbyStop) -> (r: bool)
    ensures
        r == served_then_near()(*a, *b),
{
    if a.served == b.served {
        a.metres < b.metres
    } else {
        a.served
    }
}

/// The names decide.
pub open spec fn by_name() -> spec_fn(Stop, Stop) -> bool {
    |a: Stop, b: Stop| text_lt(a.name@, b.name@)
}

fn name_before(a: &Stop, b: &Stop) -> (r: bool)
    ensures
        r == by_name()(*a, *b),
{
    text_before(&a.name, &b.name)
}

/// The short names of the lines decide.
pub open spec fn by_short_name() -> spec_fn(Line, Line) -> bool {
    |a: Line, b: Line| text_lt(a.short_name@, b.short_name@)
}

fn short_name_before(a: &Line, b: &Line) -> (r: bool)
    ensures
        r == by_short_name()(*a, *b),
{
    text_before(&a.short_name, &b.short_name)
}

/// The planned seconds decide.
pub open spec fn by_departure() -> spec_fn(ScheduledDeparture, ScheduledDeparture) -> bool {
    |a: ScheduledDeparture, b: ScheduledDeparture| a.departure_secs < b.departure_secs
}

fn departs_before(a: &ScheduledDeparture, b: &ScheduledDeparture) -> (r: bool)
    ensures
        r == by_departure()(*a, *b),
{
    a.departure_secs < b.departure_secs
}

impl GtfsRepo {
    /// Whether a stop's name holds the question, whatever the case of either.
    pub open spec fn name_matches(s: StopRow, q: Seq<char>) -> bool {
        has_text(lowercase(s.stop_name@), lowercase(trimmed(q)))
    }

    /// The stops whose name holds the question, with whether they are served.
    pub open spec fn stops_named(self, q: Seq<char>) -> Seq<(Stop, bool)> {
        self.stops@.filter(|s: StopRow| Self::name_matches(s, q)).map_values(
            |s: StopRow| (s.as_stop(), is_served(self.stop_times@, s.stop_id@)),
        )
    }

    /// Whether a stop is in fact served, by one trip at least.
    pub fn stop_is_served(&self, stop_id: &str) -> (r: bool)
        ensures
            r == is_served(self.stop_times@, stop_id@),
    {
        let mut i: usize = 0;
        while i < self.stop_times.len()
            invariant
                0 <= i <= self.stop_times@.len(),
                forall|k: int| 0 <= k < i ==> (#[trigger] self.stop_times@[k]).stop_id@ != stop_id@,
            decreases self.stop_times@.len() - i,
        {
            if same_text(&self.stop_times[i].stop_id, stop_id) {
                return true;
            }
            i = i + 1;
        }
        false
    }

    /// Looks stops up by name: a part of it, in either case. Stops that are
    /// served come first; stations without a timetable of their own come last.
    pub fn search_stops(&self, q: &str, limit: usize) -> (r: Vec<Stop>)
        ensures
            r@ == at_most(
                ordered(self.stops_named(q@), served_then_name()).map_values(
                    |p: (Stop, bool)| p.0,
                ),
                limit as int,
            ),
    {
        let question = to_lowercase(&trim(q));
        let ghost p = |s: StopRow| Self::name_matches(s, q@);
        let ghost f = |s: StopRow| (s.as_stop(), is_served(self.stop_times@, s.stop_id@));
        let mut found: Vec<(Stop, bool)> = Vec::new();
        let mut i: usize = 0;
        proof {
            reveal(Seq::filter);
            assert(self.stops@.take(0) =~= Seq::<StopRow>::empty());
            assert(found@ =~= self.stops@.take(0).filter(p).map_values(f));
        }
        while i < self.stops.len()
            invariant
                0 <= i <= self.stops@.len(),
                question@ == lowercase(trimmed(q@)),
                p == (|s: StopRow| Self::name_matches(s, q@)),
                f == (|s: StopRow| (s.as_stop(), is_served(self.stop_times@, s.stop_id@))),
                found@ == self.stops@.take(i as int).filter(p).map_values(f),
            decreases self.stops@.len() - i,
        {
            let s = &self.stops[i];
            proof {
                reveal(Seq::filter);
                assert(self.stops@.take(i + 1).drop_last() =~= self.stops@.take(i as int));
                assert(self.stops@.take(i + 1).last() == *s);
            }
            if contains(&to_lowercase(&s.stop_name), &question) {
                found.push((s.to_stop(), self.stop_is_served(&s.stop_id)));
            }
            assert(found@ =~= self.stops@.take(i + 1).filter(p).map_values(f));
            i = i + 1;
        }
        assert(self.stops@.take(self.stops@.len() as int) =~= self.stops@);
        let sorted = sort_by(found, served_or_name_before, Ghost(served_then_name()));
        let mut out: Vec<Stop> = Vec::new();
        let mut n: usize = 0;
        let ghost all = sorted@.map_values(|p: (Stop, bool)| p.0);
        while n < sorted.len() && n < limit
            invariant
                0 <= n <= sorted@.len(),
                n <= limit,
                all == sorted@.map_values(|p: (Stop, bool)| p.0),
                out@ == all.take(n as int),
            decreases sorted@.len() - n,
        {
            out.push(sorted[n].0.clone());
            assert(out@ =~= all.take(n + 1));
            n = n + 1;
        }
        assert(out@ =~= at_most(all, limit as int));
        out
    }

    /// The stops within a distance, given the distance of each stop.
    pub open spec fn stops_within(self, metres: Seq<u64>, radius: u64) -> Seq<NearbyStop> {
        Seq::new(
            self.stops@.len(),
            |i: int|
                NearbyStop {
                    stop: self.stops@[i].as_stop(),
                    metres: metres[i],
                    served: is_served(self.stop_times@, self.stops@[i].stop_id@),
                },
        ).filter(|n: NearbyStop| within(n.metres, radius))
    }

    /// The stops near a point, within a radius, by distance, those that are
    /// served first: at most twenty. `metres` holds the distance of each stop
    /// from the point; distances and radius are given by the bits of their
    /// IEEE 754 doubles.
    pub fn nearby_stops(&self, metres: &[u64], radius: u64) -> (r: Vec<NearbyStop>)
        requires
            metres@.len() == self.stops@.len(),
        ensures
            r@ == at_most(ordered(self.stops_within(metres@, radius), served_then_near()), 20),
    {
        let ghost all = Seq::new(
            self.stops@.len(),
            |i: int|
                NearbyStop {
                    stop: self.stops@[i].as_stop(),
                    metres: metres@[i],
                    served: is_served(self.stop_times@, self.stops@[i].stop_id@),
                },
        );
        let ghost p = |n: NearbyStop| within(n.metres, radius);
        let mut found: Vec<NearbyStop> = Vec::new();
        let mut i: usize = 0;
        proof {
            reveal(Seq::filter);
            assert(all.take(0) =~= Seq::<NearbyStop>::empty());
        }
        while i < self.stops.len()
            invariant
                0 <= i <= self.stops@.len(),
                metres@.len() == self.stops@.len(),
                all == Seq::new(
                    self.stops@.len(),
                    |i: int|
                        NearbyStop {
                            stop: self.stops@[i].as_stop(),
                            metres: metres@[i],
                            served: is_served(self.stop_times@, self.stops@[i].stop_id@),
                        },
                ),
                p == (|n: NearbyStop| within(n.metres, radius)),
                found@ == all.take(i as int).filter(p),
            decreases self.stops@.len() - i,
        {
            let s = &self.stops[i];
            proof {
                reveal(Seq::filter);
                assert(all.take(i + 1).drop_last() =~= all.take(i as int));
                assert(all.take(i + 1).last() == all[i as int]);
            }
            if is_within(metres[i], radius) {
                found.push(
                    NearbyStop {
                        stop: s.to_stop(),
                        metres: metres[i],
                        served: self.stop_is_served(&s.stop_id),
                    },
                );
            }
            i = i + 1;
        }
        assert(all.take(all.len() as int) =~= all);
        let mut sorted = sort_by(found, served_or_near_before, Ghost(served_then_near()));
        let ghost whole = sorted@;
        if sorted.len() > 20 {
            sorted.truncate(20);
            assert(sorted@ =~= whole.take(20));
        }
        sorted
    }

    /// The nearest stop to a point, within a radius: the first of those near it.
    pub fn nearest_stop(&self, metres: &[u64], radius: u64) -> (r: Option<Stop>)
        requires
            metres@.len() == self.stops@.len(),
        ensures
            r == ({
                let near = ordered(self.stops_within(metres@, radius), served_then_near());
                if near.len() > 0 {
                    Some(near[0].stop)
                } else {
                    None
                }
            }),
    {
        let near = self.nearby_stops(metres, radius);
        if near.len() > 0 {
            Some(near[0].stop.clone())
        } else {
            None
        }
    }

    /// Whether a stop is the station itself or a served platform of it.
    pub open spec fn belongs_to(self, s: StopRow, station: Seq<char>) -> bool {
        ||| s.stop_id@ == station
        ||| (s.parent_station matches Some(p) && p@ == station && is_served(
            self.stop_times@,
            s.stop_id@,
        ))
    }

    /// The served platforms of a station (those that name it as their
    /// `parent_station`), and the station itself, by name.
    pub fn station_stops(&self, stop_id: &str) -> (r: Vec<Stop>)
        ensures
            r@ == ordered(
                self.stops@.filter(|s: StopRow| self.belongs_to(s, stop_id@)).map_values(
                    |s: StopRow| s.as_stop(),
                ),
                by_name(),
            ),
    {
        let ghost p = |s: StopRow| self.belongs_to(s, stop_id@);
        let ghost f = |s: StopRow| s.as_stop();
        let mut found: Vec<Stop> = Vec::new();
        let mut i: usize = 0;
        proof {
            reveal(Seq::filter);
            assert(self.stops@.take(0) =~= Seq::<StopRow>::empty());
            assert(found@ =~= self.stops@.take(0).filter(p).map_values(f));
        }
        while i < self.stops.len()
            invariant
                0 <= i <= self.stops@.len(),
                p == (|s: StopRow| self.belongs_to(s, stop_id@)),
                f == (|s: StopRow| s.as_stop()),
                found@ == self.stops@.take(i as int).filter(p).map_values(f),
            decreases self.stops@.len() - i,
        {
            let s = &self.stops[i];
            proof {
                reveal(Seq::filter);
                assert(self.stops@.take(i + 1).drop_last() =~= self.stops@.take(i as int));
                assert(self.stops@.take(i + 1).last() == *s);
            }
            let is_platform = match &s.parent_station {
                Some(parent) => same_text(parent, stop_id) && self.stop_is_served(&s.stop_id),
                None => false,
            };
            if same_text(&s.stop_id, stop_id) || is_platform {
                found.push(s.to_stop());
            }
            assert(found@ =~= self.stops@.take(i + 1).filter(p).map_values(f));
            i = i + 1;
        }
        assert(self.stops@.take(self.stops@.len() as int) =~= self.stops@);
        sort_by(found, name_before, Ghost(by_name()))
    }

    /// The first row of the stop.
    pub open spec fn stop_row(stops: Seq<StopRow>, stop_id: Seq<char>) -> Option<StopRow> {
        let found = stops.filter(|s: StopRow| s.stop_id@ == stop_id);
        if found.len() > 0 {
            Some(found[0])
        } else {
            None
        }
    }

    /// The stop with that key.
    pub fn stop(&self, stop_id: &str) -> (r: Option<Stop>)
        ensures
            r == match Self::stop_row(self.stops@, stop_id@) {
                Some(s) => Some(s.as_stop()),
                None => None,
            },
    {
        match self.find_stop(stop_id) {
            Some(s) => Some(s.to_stop()),
            None => None,
        }
    }

    /// The first row of the stop with that key.
    pub(crate) fn find_stop(&self, stop_id: &str) -> (r: Option<&StopRow>)
        ensures
            r is Some <==> Self::stop_row(self.stops@, stop_id@) is Some,
            r matches Some(s) ==> *s == Self::stop_row(self.stops@, stop_id@)->0,
    {
        let ghost p = |s: StopRow| s.stop_id@ == stop_id@;
        let mut i: usize = 0;
        proof {
            reveal(Seq::filter);
            assert(self.stops@.take(0) =~= Seq::<StopRow>::empty());
        }
        while i < self.stops.len()
            invariant
                0 <= i <= self.stops@.len(),
                p == (|s: StopRow| s.stop_id@ == stop_id@),
                self.stops@.take(i as int).filter(p).len() == 0,
            decreases self.stops@.len() - i,
        {
            proof {
                reveal(Seq::filter);
                assert(self.stops@.take(i + 1).drop_last() =~= self.stops@.take(i as int));
                assert(self.stops@.take(i + 1).last() == self.stops@[i as int]);
            }
            if same_text(&self.stops[i].stop_id, stop_id) {
                proof {
                    crate::table::lemma_filter_concat(
                        self.stops@.take(i + 1),
                        self.stops@.skip(i + 1),
                        p,
                    );
                    assert(self.stops@.take(i + 1) + self.stops@.skip(i + 1) =~= self.stops@);
                }
                return Some(&self.stops[i]);
            }
            i = i + 1;
        }
        assert(self.stops@.take(self.stops@.len() as int) =~= self.stops@);
        None
    }

    /// The first row of the line.
    pub open spec fn route_row(routes: Seq<RouteRow>, route_id: Seq<char>) -> Option<RouteRow> {
        let found = routes.filter(|x: RouteRow| x.route_id@ == route_id);
        if found.len() > 0 {
            Some(found[0])
        } else {
            None
        }
    }

    /// The line with that key.
    pub fn route(&self, route_id: &str) -> (r: Option<Line>)
        ensures
            r == match Self::route_row(self.routes@, route_id@) {
                Some(x) => Some(x.as_line()),
                None => None,
            },
    {
        let ghost p = |x: RouteRow| x.route_id@ == route_id@;
        let mut i: usize = 0;
        proof {
            reveal(Seq::filter);
            assert(self.routes@.take(0) =~= Seq::<RouteRow>::empty());
        }
        while i < self.routes.len()
            invariant
                0 <= i <= self.routes@.len(),
                p == (|x: RouteRow| x.route_id@ == route_id@),
                self.routes@.take(i as int).filter(p).len() == 0,
            decreases self.routes@.len() - i,
        {
            proof {
                reveal(Seq::filter);
                assert(self.routes@.take(i + 1).drop_last() =~= self.routes@.take(i as int));
                assert(self.routes@.take(i + 1).last() == self.routes@[i as int]);
            }
            if same_text(&self.routes[i].route_id, route_id) {
                proof {
                    crate::table::lemma_filter_concat(
                        self.routes@.take(i + 1),
                        self.routes@.skip(i + 1),
                        p,
                    );
                    assert(self.routes@.take(i + 1) + self.routes@.skip(i + 1) =~= self.routes@);
                }
                return Some(self.routes[i].to_line());
            }
            i = i + 1;
        }
        assert(self.routes@.take(self.routes@.len() as int) =~= self.routes@);
        None
    }
}

impl CalendarRow {
    /// What the calendar says of a weekday, from 0 for Monday.
    pub open spec fn on(self, day: int) -> i64 {
        if day == 0 {
            self.monday
        } else if day == 1 {
            self.tuesday
        } else if day == 2 {
            self.wednesday
        } else if day == 3 {
            self.thursday
        } else if day == 4 {
            self.friday
        } else if day == 5 {
            self.saturday
        } else {
            self.sunday
        }
    }

    fn runs_on(&self, day: u32) -> (r: i64)
        requires
            day < 7,
        ensures
            r == self.on(day as int),
    {
        match day {
            0 => self.monday,
            1 => self.tuesday,
            2 => self.wednesday,
            3 => self.thursday,
            4 => self.friday,
            5 => self.saturday,
            _ => self.sunday,
        }
    }

    /// Whether the calendar has the service run on a date, which is such a
    /// weekday.
    pub open spec fn covers(self, date: Seq<char>, day: int) -> bool {
        &&& self.on(day) == 1
        &&& !text_lt(date, self.start_date@)
        &&& !text_lt(self.end_date@, date)
    }
}

/// The kind of exception that adds a date to a service.
pub const ADDED: i64 = 1;

/// The kind of exception that takes a date from a service.
pub const REMOVED: i64 = 2;

/// Whether there is an exception of that kind for a service on a date.
pub open spec fn has_exception(
    dates: Seq<CalendarDateRow>,
    service: Seq<char>,
    date: Seq<char>,
    kind: i64,
) -> bool {
    exists|i: int|
        0 <= i < dates.len() && (#[trigger] dates[i]).service_id@ == service && dates[i].date@
            == date && dates[i].exception_type == kind
}

/// A trip of a list with that key: the first one.
pub open spec fn trip_row(trips: Seq<TripRow>, trip_id: Seq<char>) -> Option<TripRow> {
    let found = trips.filter(|t: TripRow| t.trip_id@ == trip_id);
    if found.len() > 0 {
        Some(found[0])
    } else {
        None
    }
}

/// Whether a text is in a list.
pub open spec fn is_listed(list: Seq<String>, text: Seq<char>) -> bool {
    exists|i: int| 0 <= i < list.len() && (#[trigger] list[i])@ == text
}

pub(crate) fn list_has(list: &[String], text: &str) -> (r: bool)
    ensures
        r == is_listed(list@, text@),
{
    let mut i: usize = 0;
    while i < list.len()
        invariant
            0 <= i <= list@.len(),
            forall|k: int| 0 <= k < i ==> (#[trigger] list@[k])@ != text@,
        decreases list@.len() - i,
    {
        if same_text(&list[i], text) {
            return true;
        }
        i = i + 1;
    }
    false
}

impl GtfsRepo {
    /// Whether a service runs on a date: by its calendar or by an exception that
    /// adds the date, and with no exception that takes it away.
    pub open spec fn runs(self, c: CalendarRow, date: Seq<char>, day: int) -> bool {
        &&& c.covers(date, day) || has_exception(self.calendar_dates@, c.service_id@, date, ADDED)
        &&& !has_exception(self.calendar_dates@, c.service_id@, date, REMOVED)
    }

    /// The services that run on a date, which is such a weekday.
    pub open spec fn services_on(self, date: Seq<char>, day: int) -> Seq<String> {
        self.calendar@.filter(|c: CalendarRow| self.runs(c, date, day)).map_values(
            |c: CalendarRow| c.service_id,
        )
    }

    fn excepted(&self, service: &str, date: &str, kind: i64) -> (r: bool)
        ensures
            r == has_exception(self.calendar_dates@, service@, date@, kind),
    {
        let mut i: usize = 0;
        while i < self.calendar_dates.len()
            invariant
                0 <= i <= self.calendar_dates@.len(),
                forall|k: int|
                    0 <= k < i ==> !((#[trigger] self.calendar_dates@[k]).service_id@ == service@
                        && self.calendar_dates@[k].date@ == date@
                        && self.calendar_dates@[k].exception_type == kind),
            decreases self.calendar_dates@.len() - i,
        {
            let x = &self.calendar_dates[i];
            if x.exception_type == kind && same_text(&x.date, date) && same_text(
                &x.service_id,
                service,
            ) {
                return true;
            }
            i = i + 1;
        }
        false
    }

    /// The services that run on a date `YYYYMMDD`, by calendar and exceptions.
    pub fn active_services(&self, yyyymmdd: &str) -> (r: Result<Vec<String>, GtfsError>)
        ensures
            r is Ok <==> weekday_in(yyyymmdd@) is Some,
            r matches Ok(services) ==> services@ == self.services_on(
                yyyymmdd@,
                weekday_in(yyyymmdd@)->0,
            ),
            r matches Err(e) ==> e@ == date_fault(yyyymmdd@),
            reads_as_written(yyyymmdd@),
    {
        match weekday_number(yyyymmdd) {
            Ok(day) => Ok(self.services_of(yyyymmdd, day)),
            Err(e) => Err(e),
        }
    }

    /// The services that run on a date, which is such a weekday, from 0 for
    /// Monday.
    pub fn services_of(&self, date: &str, day: u32) -> (r: Vec<String>)
        requires
            day < 7,
        ensures
            r@ == self.services_on(date@, day as int),
    {
        let ghost p = |c: CalendarRow| self.runs(c, date@, day as int);
        let ghost f = |c: CalendarRow| c.service_id;
        let mut out: Vec<String> = Vec::new();
        let mut i: usize = 0;
        proof {
            reveal(Seq::filter);
            assert(self.calendar@.take(0) =~= Seq::<CalendarRow>::empty());
            assert(out@ =~= self.calendar@.take(0).filter(p).map_values(f));
        }
        while i < self.calendar.len()
            invariant
                0 <= i <= self.calendar@.len(),
                day < 7,
                p == (|c: CalendarRow| self.runs(c, date@, day as int)),
                f == (|c: CalendarRow| c.service_id),
                out@ == self.calendar@.take(i as int).filter(p).map_values(f),
            decreases self.calendar@.len() - i,
        {
            let c = &self.calendar[i];
            proof {
                reveal(Seq::filter);
                assert(self.calendar@.take(i + 1).drop_last() =~= self.calendar@.take(i as int));
                assert(self.calendar@.take(i + 1).last() == *c);
            }
            let covered = c.runs_on(day) == 1 && !text_before(date, &c.start_date) && !text_before(
                &c.end_date,
                date,
            );
            if (covered || self.excepted(&c.service_id, date, ADDED)) && !self.excepted(
                &c.service_id,
                date,
                REMOVED,
            ) {
                out.push(c.service_id.clone());
            }
            assert(out@ =~= self.calendar@.take(i + 1).filter(p).map_values(f));
            i = i + 1;
        }
        assert(self.calendar@.take(self.calendar@.len() as int) =~= self.calendar@);
        out
    }

    /// Whether some trip of the line calls at the stop.
    pub open spec fn line_calls_at(self, route_id: Seq<char>, stop_id: Seq<char>) -> bool {
        exists|i: int|
            0 <= i < self.stop_times@.len() && self.is_call_of(
                #[trigger] self.stop_times@[i],
                route_id,
                stop_id,
            )
    }

    /// Whether a call is one of that line at that stop.
    pub open spec fn is_call_of(
        self,
        st: StopTimeRow,
        route_id: Seq<char>,
        stop_id: Seq<char>,
    ) -> bool {
        &&& st.stop_id@ == stop_id
        &&& exists|t: int|
            0 <= t < self.trips@.len() && (#[trigger] self.trips@[t]).trip_id@ == st.trip_id@
                && self.trips@[t].route_id@ == route_id
    }

    fn trip_is_of(&self, trip_id: &str, route_id: &str) -> (r: bool)
        ensures
            r == exists|t: int|
                0 <= t < self.trips@.len() && (#[trigger] self.trips@[t]).trip_id@ == trip_id@
                    && self.trips@[t].route_id@ == route_id@,
    {
        let mut i: usize = 0;
        while i < self.trips.len()
            invariant
                0 <= i <= self.trips@.len(),
                forall|t: int|
                    0 <= t < i ==> !((#[trigger] self.trips@[t]).trip_id@ == trip_id@
                        && self.trips@[t].route_id@ == route_id@),
            decreases self.trips@.len() - i,
        {
            if same_text(&self.trips[i].trip_id, trip_id) && same_text(
                &self.trips[i].route_id,
                route_id,
            ) {
                return true;
            }
            i = i + 1;
        }
        false
    }

    fn calls_at(&self, route_id: &str, stop_id: &str) -> (r: bool)
        ensures
            r == self.line_calls_at(route_id@, stop_id@),
    {
        let mut i: usize = 0;
        while i < self.stop_times.len()
            invariant
                0 <= i <= self.stop_times@.len(),
                forall|k: int|
                    0 <= k < i ==> !self.is_call_of(
                        #[trigger] self.stop_times@[k],
                        route_id@,
                        stop_id@,
                    ),
            decreases self.stop_times@.len() - i,
        {
            let st = &self.stop_times[i];
            if same_text(&st.stop_id, stop_id) && self.trip_is_of(&st.trip_id, route_id) {
                assert(self.is_call_of(self.stop_times@[i as int], route_id@, stop_id@));
                return true;
            }
            i = i + 1;
        }
        false
    }

    /// The lines that call at a stop, by their short names.
    pub fn lines_for_stop(&self, stop_id: &str) -> (r: Vec<Line>)
        ensures
            r@ == ordered(
                self.routes@.filter(
                    |x: RouteRow| self.line_calls_at(x.route_id@, stop_id@),
                ).map_values(|x: RouteRow| x.as_line()),
                by_short_name(),
            ),
    {
        let ghost p = |x: RouteRow| self.line_calls_at(x.route_id@, stop_id@);
        let ghost f = |x: RouteRow| x.as_line();
        let mut found: Vec<Line> = Vec::new();
        let mut i: usize = 0;
        proof {
            reveal(Seq::filter);
            assert(self.routes@.take(0) =~= Seq::<RouteRow>::empty());
            assert(found@ =~= self.routes@.take(0).filter(p).map_values(f));
        }
        while i < self.routes.len()
            invariant
                0 <= i <= self.routes@.len(),
                p == (|x: RouteRow| self.line_calls_at(x.route_id@, stop_id@)),
                f == (|x: RouteRow| x.as_line()),
                found@ == self.routes@.take(i as int).filter(p).map_values(f),
            decreases self.routes@.len() - i,
        {
            let x = &self.routes[i];
            proof {
                reveal(Seq::filter);
                assert(self.routes@.take(i + 1).drop_last() =~= self.routes@.take(i as int));
                assert(self.routes@.take(i + 1).last() == *x);
            }
            if self.calls_at(&x.route_id, stop_id) {
                found.push(x.to_line());
            }
            assert(found@ =~= self.routes@.take(i + 1).filter(p).map_values(f));
            i = i + 1;
        }
        assert(self.routes@.take(self.routes@.len() as int) =~= self.routes@);
        sort_by(found, short_name_before, Ghost(by_short_name()))
    }

    /// Whether a call is a departure from the stop, at a time within the window,
    /// on a trip of one of the services.
    pub open spec fn departs_within(
        self,
        st: StopTimeRow,
        stop_id: Seq<char>,
        services: Seq<String>,
        from_secs: int,
        horizon_secs: int,
    ) -> bool {
        &&& st.stop_id@ == stop_id
        &&& st.departure_secs matches Some(d) && from_secs <= d <= from_secs + horizon_secs
        &&& trip_row(self.trips@, st.trip_id@) matches Some(t) && is_listed(
            services,
            t.service_id@,
        )
    }

    /// The departure that a call stands for.
    pub open spec fn departure_of(self, st: StopTimeRow) -> ScheduledDeparture {
        let t = trip_row(self.trips@, st.trip_id@)->0;
        ScheduledDeparture {
            trip_id: st.trip_id,
            route_id: t.route_id,
            stop_sequence: st.stop_sequence,
            headsign: t.headsign,
            departure_secs: st.departure_secs->0,
        }
    }

    /// The departures from a stop within the window, on trips of the services.
    pub open spec fn departures_within(
        self,
        stop_id: Seq<char>,
        services: Seq<String>,
        from_secs: int,
        horizon_secs: int,
    ) -> Seq<ScheduledDeparture> {
        self.stop_times@.filter(
            |st: StopTimeRow|
                self.departs_within(st, stop_id, services, from_secs, horizon_secs),
        ).map_values(|st: StopTimeRow| self.departure_of(st))
    }

    fn find_trip(&self, trip_id: &str) -> (r: Option<&TripRow>)
        ensures
            r is Some <==> trip_row(self.trips@, trip_id@) is Some,
            r matches Some(t) ==> *t == trip_row(self.trips@, trip_id@)->0,
    {
        let ghost p = |t: TripRow| t.trip_id@ == trip_id@;
        let mut i: usize = 0;
        proof {
            reveal(Seq::filter);
            assert(self.trips@.take(0) =~= Seq::<TripRow>::empty());
        }
        while i < self.trips.len()
            invariant
                0 <= i <= self.trips@.len(),
                p == (|t: TripRow| t.trip_id@ == trip_id@),
                self.trips@.take(i as int).filter(p).len() == 0,
            decreases self.trips@.len() - i,
        {
            proof {
                reveal(Seq::filter);
                assert(self.trips@.take(i + 1).drop_last() =~= self.trips@.take(i as int));
                assert(self.trips@.take(i + 1).last() == self.trips@[i as int]);
            }
            if same_text(&self.trips[i].trip_id, trip_id) {
                proof {
                    crate::table::lemma_filter_concat(
                        self.trips@.take(i + 1),
                        self.trips@.skip(i + 1),
                        p,
                    );
                    assert(self.trips@.take(i + 1) + self.trips@.skip(i + 1) =~= self.trips@);
                }
                return Some(&self.trips[i]);
            }
            i = i + 1;
        }
        assert(self.trips@.take(self.trips@.len() as int) =~= self.trips@);
        None
    }

    /// The next planned departures from a stop, from `from_secs` to
    /// `from_secs + horizon_secs` seconds after midnight of the day of service,
    /// and only those of the services given: without them, Saturdays, Sundays
    /// and holidays would mix. By time, at most `limit`.
    pub fn departures_at_stop(
        &self,
        stop_id: &str,
        services: &[String],
        from_secs: i64,
        horizon_secs: i64,
        limit: usize,
    ) -> (r: Vec<ScheduledDeparture>)
        requires
            i64::MIN <= from_secs + horizon_secs <= i64::MAX,
        ensures
            r@ == at_most(
                ordered(
                    self.departures_within(
                        stop_id@,
                        services@,
                        from_secs as int,
                        horizon_secs as int,
                    ),
                    by_departure(),
                ),
                limit as int,
            ),
    {
        let to_secs: i64 = from_secs + horizon_secs;
        let ghost p = |st: StopTimeRow|
            self.departs_within(
                st,
                stop_id@,
                services@,
                from_secs as int,
                horizon_secs as int,
            );
        let ghost f = |st: StopTimeRow| self.departure_of(st);
        let mut found: Vec<ScheduledDeparture> = Vec::new();
        let mut i: usize = 0;
        proof {
            reveal(Seq::filter);
            assert(self.stop_times@.take(0) =~= Seq::<StopTimeRow>::empty());
            assert(found@ =~= self.stop_times@.take(0).filter(p).map_values(f));
        }
        while i < self.stop_times.len()
            invariant
                0 <= i <= self.stop_times@.len(),
                to_secs == from_secs + horizon_secs,
                p == (|st: StopTimeRow|
                    self.departs_within(
                        st,
                        stop_id@,
                        services@,
                        from_secs as int,
                        horizon_secs as int,
                    )),
                f == (|st: StopTimeRow| self.departure_of(st)),
                found@ == self.stop_times@.take(i as int).filter(p).map_values(f),
            decreases self.stop_times@.len() - i,
        {
            let st = &self.stop_times[i];
            proof {
                reveal(Seq::filter);
                assert(self.stop_times@.take(i + 1).drop_last() =~= self.stop_times@.take(
                    i as int,
                ));
                assert(self.stop_times@.take(i + 1).last() == *st);
            }
            if let Some(departure_secs) = st.departure_secs {
                if from_secs <= departure_secs && departure_secs <= to_secs && same_text(
                    &st.stop_id,
                    stop_id,
                ) {
                    if let Some(t) = self.find_trip(&st.trip_id) {
                        if list_has(services, &t.service_id) {
                            found.push(
                                ScheduledDeparture {
                                    trip_id: st.trip_id.clone(),
                                    route_id: t.route_id.clone(),
                                    stop_sequence: st.stop_sequence,
                                    headsign: t.headsign.clone(),
                                    departure_secs,
                                },
                            );
                        }
                    }
                }
            }
            assert(found@ =~= self.stop_times@.take(i + 1).filter(p).map_values(f));
            i = i + 1;
        }
        assert(self.stop_times@.take(self.stop_times@.len() as int) =~= self.stop_times@);
        let mut sorted = sort_by(found, departs_before, Ghost(by_departure()));
        let ghost whole = sorted@;
        if sorted.len() > limit {
            sorted.truncate(limit);
            assert(sorted@ =~= whole.take(limit as int));
        }
        sorted
    }
}

pub proof fn lemma_texts_compare()
    ensures
        forall|a: Seq<char>, b: Seq<char>| #[trigger] text_lt(a, b) ==> !text_lt(b, a),
        forall|a: Seq<char>, b: Seq<char>, c: Seq<char>|
            #![trigger text_lt(b, a), text_lt(c, b)]
            !text_lt(b, a) && !text_lt(c, b) ==> !text_lt(c, a),
{
    assert forall|a: Seq<char>, b: Seq<char>| #[trigger] text_lt(a, b) implies !text_lt(b, a) by {
        if text_lt(b, a) {
            crate::text::text_lt_transitive(a, b, a);
            crate::text::text_lt_irreflexive(a);
        }
    }
    assert forall|a: Seq<char>, b: Seq<char>, c: Seq<char>|
        #![trigger text_lt(b, a), text_lt(c, b)]
        !text_lt(b, a) && !text_lt(c, b) implies !text_lt(c, a) by {
        if text_lt(c, a) {
            crate::text::text_lt_total(b, a);
            if b == a {
            } else {
                crate::text::text_lt_transitive(c, a, b);
            }
        }
    }
}

/// The orders in which the timetable answers are orders.
pub proof fn answers_have_an_order()
    ensures
        crate::order::is_order(served_then_name()),
        crate::order::is_order(served_then_near()),
        crate::order::is_order(by_name()),
        crate::order::is_order(by_short_name()),
        crate::order::is_order(by_departure()),
{
    lemma_texts_compare();
}

/// Among the stops found by name, those that are served come first, and within
/// each group the names are in order.
pub proof fn served_stops_are_found_first(repo: GtfsRepo, q: Seq<char>, i: int, j: int)
    requires
        0 <= i < j < repo.stops_named(q).len(),
    ensures
        ({
            let found = ordered(repo.stops_named(q), served_then_name());
            &&& found[j].1 ==> found[i].1
            &&& found[i].1 == found[j].1 ==> !text_lt(found[j].0.name@, found[i].0.name@)
        }),
{
    answers_have_an_order();
    crate::order::ordered_is_in_order(repo.stops_named(q), served_then_name());
}

/// Among the stops near a point, those that are served come first, and within
/// each group the distance never falls; none lies outside the radius.
pub proof fn nearby_stops_are_served_then_near(
    repo: GtfsRepo,
    metres: Seq<u64>,
    radius: u64,
    i: int,
    j: int,
)
    requires
        0 <= i < j < repo.stops_within(metres, radius).len(),
    ensures
        ({
            let near = ordered(repo.stops_within(metres, radius), served_then_near());
            &&& near[j].served ==> near[i].served
            &&& near[i].served == near[j].served ==> near[i].metres <= near[j].metres
            &&& within(near[i].metres, radius) && within(near[j].metres, radius)
        }),
{
    let s = repo.stops_within(metres, radius);
    answers_have_an_order();
    crate::order::ordered_is_in_order(s, served_then_near());
    crate::order::ordered_has_the_same_items(s, served_then_near());
    let near = ordered(s, served_then_near());
    let all = Seq::new(
        repo.stops@.len(),
        |i: int|
            NearbyStop {
                stop: repo.stops@[i].as_stop(),
                metres: metres[i],
                served: is_served(repo.stop_times@, repo.stops@[i].stop_id@),
            },
    );
    let p = |n: NearbyStop| within(n.metres, radius);
    crate::table::lemma_filter_items(all, p);
    assert forall|k: int| 0 <= k < near.len() implies within(
        (#[trigger] near[k]).metres,
        radius,
    ) by {
        assert(near.contains(near[k]));
        assert(s.contains(near[k]));
        let m = choose|m: int| 0 <= m < s.len() && s[m] == near[k];
        assert(p(all.filter(p)[m]));
    }
    assert(near.len() == s.len());
}

pub proof fn lemma_departure_from(
    repo: GtfsRepo,
    stop_id: Seq<char>,
    services: Seq<String>,
    from_secs: int,
    horizon_secs: int,
    i: int,
) -> (st: StopTimeRow)
    requires
        0 <= i < repo.departures_within(stop_id, services, from_secs, horizon_secs).len(),
    ensures
        repo.stop_times@.contains(st),
        repo.departs_within(st, stop_id, services, from_secs, horizon_secs),
        ordered(
            repo.departures_within(stop_id, services, from_secs, horizon_secs),
            by_departure(),
        )[i] == repo.departure_of(st),
{
    let all = repo.departures_within(stop_id, services, from_secs, horizon_secs);
    let sorted = ordered(all, by_departure());
    crate::order::ordered_keeps_items(all, by_departure());
    crate::order::ordered_has_the_same_items(all, by_departure());
    let p = |st: StopTimeRow| repo.departs_within(st, stop_id, services, from_secs, horizon_secs);
    let kept = repo.stop_times@.filter(p);
    crate::table::lemma_filter_items(repo.stop_times@, p);
    assert(sorted.contains(sorted[i]));
    assert(all.contains(sorted[i]));
    let k = choose|k: int| 0 <= k < all.len() && all[k] == sorted[i];
    assert(p(kept[k]) && repo.stop_times@.contains(kept[k]));
    kept[k]
}

/// The planned departures of a stop lie within the window, belong to trips of
/// the services given, and come in the order of time.
pub proof fn planned_departures_are_due(
    repo: GtfsRepo,
    stop_id: Seq<char>,
    services: Seq<String>,
    from_secs: int,
    horizon_secs: int,
    i: int,
    j: int,
)
    requires
        0 <= i < j < repo.departures_within(stop_id, services, from_secs, horizon_secs).len(),
    ensures
        ({
            let d = ordered(
                repo.departures_within(stop_id, services, from_secs, horizon_secs),
                by_departure(),
            );
            &&& d[i].departure_secs <= d[j].departure_secs
            &&& from_secs <= d[i].departure_secs <= from_secs + horizon_secs
            &&& trip_row(repo.trips@, d[i].trip_id@) matches Some(t) && is_listed(
                services,
                t.service_id@,
            )
        }),
{
    let all = repo.departures_within(stop_id, services, from_secs, horizon_secs);
    answers_have_an_order();
    crate::order::ordered_is_in_order(all, by_departure());
    lemma_departure_from(repo, stop_id, services, from_secs, horizon_secs, i);
}

/// No service is listed as running on a date on which an exception takes it
/// away, whatever its calendar says.
pub proof fn a_removed_date_does_not_run(
    repo: GtfsRepo,
    date: Seq<char>,
    day: int,
    service: Seq<char>,
)
    requires
        has_exception(repo.calendar_dates@, service, date, REMOVED),
    ensures
        !is_listed(repo.services_on(date, day), service),
{
    let p = |c: CalendarRow| repo.runs(c, date, day);
    let kept = repo.calendar@.filter(p);
    let listed = repo.services_on(date, day);
    crate::table::lemma_filter_items(repo.calendar@, p);
    assert forall|i: int| 0 <= i < listed.len() implies (#[trigger] listed[i])@ != service by {
        assert(p(kept[i]));
    }
}

/// A service of the calendar runs on a date that an exception adds and none
/// takes away, whatever its weekdays.
pub proof fn an_added_date_runs(repo: GtfsRepo, date: Seq<char>, day: int, c: CalendarRow)
    requires
        repo.calendar@.contains(c),
        has_exception(repo.calendar_dates@, c.service_id@, date, ADDED),
        !has_exception(repo.calendar_dates@, c.service_id@, date, REMOVED),
    ensures
        is_listed(repo.services_on(date, day), c.service_id@),
{
    let p = |c: CalendarRow| repo.runs(c, date, day);
    let kept = repo.calendar@.filter(p);
    crate::table::lemma_filter_items(repo.calendar@, p);
    assert(p(c));
    assert(kept.contains(c));
    let i = choose|i: int| 0 <= i < kept.len() && kept[i] == c;
    assert(repo.services_on(date, day)[i]@ == c.service_id@);
}

/// No service is listed twice.
pub proof fn services_are_listed_once(
    repo: GtfsRepo,
    date: Seq<char>,
    day: int,
    i: int,
    j: int,
)
    requires
        repo.wf(),
        0 <= i < j < repo.services_on(date, day).len(),
    ensures
        repo.services_on(date, day)[i]@ != repo.services_on(date, day)[j]@,
{
    let p = |c: CalendarRow| repo.runs(c, date, day);
    crate::table::lemma_filter_keyed(repo.calendar@, p, same_service());
    let kept = repo.calendar@.filter(p);
    assert(!same_service()(kept[i], kept[j]));
}

/// No stop is near within a radius that is negative or no number.
pub proof fn no_stop_within_no_radius(repo: GtfsRepo, metres: Seq<u64>, radius: u64)
    requires
        radius > INFINITY,
        radius != NEGATIVE_ZERO,
    ensures
        repo.stops_within(metres, radius).len() == 0,
{
    let all = Seq::new(
        repo.stops@.len(),
        |i: int|
            NearbyStop {
                stop: repo.stops@[i].as_stop(),
                metres: metres[i],
                served: is_served(repo.stop_times@, repo.stops@[i].stop_id@),
            },
    );
    let p = |n: NearbyStop| within(n.metres, radius);
    crate::table::lemma_filter_all(all, p);
}

} // verus!
