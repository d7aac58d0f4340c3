//! Laws of the questions to the timetable: stops by key, by name, by place and by
//! station, lines, and planned departures.

use crate::domain::{Line, Stop};
use crate::laws::rows::{
    a_route_is_its_first_row, a_stop_is_its_first_row, a_trip_is_its_first_row, is_first_route,
    is_first_stop, is_first_trip,
};
use crate::laws::stops::has_entry;
use crate::loader::{RouteRow, StopRow, StopTimeRow};
use crate::order::ordered;
use crate::text::{lowercase, text_lt, trimmed};
use crate::timetable::{
    by_departure, by_name, by_short_name, is_served, served_then_name, served_then_near, GtfsRepo,
    NearbyStop, ScheduledDeparture,
};
use vstd::prelude::*;

verus! {

/// Whether some trip calls at a stop.
pub open spec fn is_called_at(repo: GtfsRepo, stop_id: Seq<char>) -> bool {
    exists|i: int|
        0 <= i < repo.stop_times@.len() && (#[trigger] repo.stop_times@[i]).stop_id@ == stop_id
}

/// Whether a stop is told as its row has it.
pub open spec fn is_row(stop: Stop, row: StopRow) -> bool {
    &&& stop.stop_id@ == row.stop_id@
    &&& stop.name@ == row.stop_name@
    &&& stop.lat == row.lat
    &&& stop.lon == row.lon
}

/// Whether a line is told as its row has it.
pub open spec fn is_route_row(line: Line, row: RouteRow) -> bool {
    &&& line.route_id@ == row.route_id@
    &&& line.short_name@ == row.short_name@
    &&& line.long_name@ == row.long_name@
    &&& line.mode == crate::gtfs::mode_of(row.route_type)
}

/// Whether a text occurs in another.
pub open spec fn occurs(needle: Seq<char>, hay: Seq<char>) -> bool {
    exists|k: int|
        0 <= k && k + needle.len() <= hay.len() && #[trigger] hay.subrange(
            k,
            k + needle.len(),
        ) == needle
}

/// A stop is served where a trip calls at it.
pub proof fn a_stop_is_served_where_a_trip_calls(repo: &GtfsRepo, stop_id: &str, r: bool)
    requires
        call_ensures(GtfsRepo::stop_is_served, (repo, stop_id), r),
    ensures
        r <==> is_called_at(*repo, stop_id@),
{
}

/// A question for a stop gives its first row, and nothing where there is none.
pub proof fn a_stop_is_found_by_its_key(
    repo: &GtfsRepo,
    stop_id: &str,
    r: Option<Stop>,
    s: int,
)
    requires
        call_ensures(GtfsRepo::stop, (repo, stop_id), r),
    ensures
        is_first_stop(repo.stops@, s, stop_id@) ==> (r matches Some(x) && is_row(
            x,
            repo.stops@[s],
        )),
        r matches Some(x) ==> x.stop_id@ == stop_id@,
        (forall|k: int|
            0 <= k < repo.stops@.len() ==> (#[trigger] repo.stops@[k]).stop_id@ != stop_id@)
            ==> r is None,
{
    let p = |s: StopRow| s.stop_id@ == stop_id@;
    if is_first_stop(repo.stops@, s, stop_id@) {
        a_stop_is_its_first_row(repo.stops@, repo.stops@[s].stop_id);
        assert(GtfsRepo::stop_row(repo.stops@, stop_id@) == Some(repo.stops@[s]));
    }
    crate::table::lemma_filter_all(repo.stops@, p);
    crate::table::lemma_filter_items(repo.stops@, p);
    if r is Some {
        assert(p(repo.stops@.filter(p)[0]));
    }
}

/// A question for a line gives its first row, and nothing where there is none.
pub proof fn a_line_is_found_by_its_key(
    repo: &GtfsRepo,
    route_id: &str,
    r: Option<Line>,
    x: int,
)
    requires
        call_ensures(GtfsRepo::route, (repo, route_id), r),
    ensures
        is_first_route(repo.routes@, x, route_id@) ==> (r matches Some(l) && is_route_row(
            l,
            repo.routes@[x],
        )),
        r matches Some(l) ==> l.route_id@ == route_id@,
        (forall|k: int|
            0 <= k < repo.routes@.len() ==> (#[trigger] repo.routes@[k]).route_id@ != route_id@)
            ==> r is None,
{
    let p = |x: RouteRow| x.route_id@ == route_id@;
    if is_first_route(repo.routes@, x, route_id@) {
        a_route_is_its_first_row(repo.routes@, repo.routes@[x].route_id);
        assert(GtfsRepo::route_row(repo.routes@, route_id@) == Some(repo.routes@[x]));
    }
    crate::table::lemma_filter_all(repo.routes@, p);
    crate::table::lemma_filter_items(repo.routes@, p);
    if r is Some {
        assert(p(repo.routes@.filter(p)[0]));
    }
}

/// How a line runs goes by the GTFS type of its route: 0, 5, 6, 7, 11 and 12 are
/// trams, 1 is a metro, 2 a train; all others are buses.
pub proof fn a_line_runs_by_its_type(t: i64, r: crate::domain::TransportMode)
    requires
        call_ensures(crate::gtfs::route_type_to_mode, (t,), r),
    ensures
        r == crate::gtfs::mode_of(t),
        r == crate::domain::TransportMode::Tram <==> t == 0 || 5 <= t <= 7 || t == 11 || t == 12,
        r == crate::domain::TransportMode::Metro <==> t == 1,
        r == crate::domain::TransportMode::Train <==> t == 2,
        r == crate::domain::TransportMode::Bus <==> t == 3 || t == 4 || 8 <= t <= 10 || t > 12 || t
            < 0,
{
}

/// Whether a stop's name holds a question, in either case and without the blanks
/// around it.
pub open spec fn answers(row: StopRow, q: Seq<char>) -> bool {
    occurs(lowercase(trimmed(q)), lowercase(row.stop_name@))
}

proof fn lemma_found_from(repo: GtfsRepo, q: Seq<char>, n: int) -> (s: int)
    requires
        0 <= n < repo.stops_named(q).len(),
    ensures
        0 <= s < repo.stops@.len(),
        answers(repo.stops@[s], q),
        ordered(repo.stops_named(q), served_then_name())[n] == (
            repo.stops@[s].as_stop(),
            is_served(repo.stop_times@, repo.stops@[s].stop_id@),
        ),
{
    let p = |s: StopRow| GtfsRepo::name_matches(s, q);
    let found = repo.stops_named(q);
    let sorted = ordered(found, served_then_name());
    let kept = repo.stops@.filter(p);
    crate::table::lemma_filter_items(repo.stops@, p);
    crate::order::ordered_keeps_items(found, served_then_name());
    crate::order::ordered_has_the_same_items(found, served_then_name());
    assert(sorted.contains(sorted[n]));
    assert(found.contains(sorted[n]));
    let k = choose|k: int| 0 <= k < found.len() && found[k] == sorted[n];
    assert(p(kept[k]) && repo.stops@.contains(kept[k]));
    let s = choose|s: int| 0 <= s < repo.stops@.len() && repo.stops@[s] == kept[k];
    lemma_occurs(lowercase(repo.stops@[s].stop_name@), lowercase(trimmed(q)));
    s
}

proof fn lemma_occurs(hay: Seq<char>, needle: Seq<char>)
    ensures
        crate::text::has_text(hay, needle) <==> occurs(needle, hay),
{
}

/// Each stop found by name is a stop of the timetable whose name holds the
/// question; no more are found than asked for.
pub proof fn a_found_stop_holds_the_question(
    repo: &GtfsRepo,
    q: &str,
    limit: usize,
    r: Vec<Stop>,
    n: int,
) -> (s: int)
    requires
        call_ensures(GtfsRepo::search_stops, (repo, q, limit), r),
        0 <= n < r@.len(),
    ensures
        r@.len() <= limit,
        0 <= s < repo.stops@.len(),
        is_row(r@[n], repo.stops@[s]),
        answers(repo.stops@[s], q@),
{
    crate::order::ordered_keeps_items(repo.stops_named(q@), served_then_name());
    lemma_found_from(*repo, q@, n)
}

/// Every stop whose name holds the question is found, unless as many as asked for
/// are.
pub proof fn every_stop_that_holds_the_question_is_found(
    repo: &GtfsRepo,
    q: &str,
    limit: usize,
    r: Vec<Stop>,
    s: int,
) -> (n: int)
    requires
        call_ensures(GtfsRepo::search_stops, (repo, q, limit), r),
        0 <= s < repo.stops@.len(),
        answers(repo.stops@[s], q@),
        r@.len() < limit,
    ensures
        0 <= n < r@.len(),
        is_row(r@[n], repo.stops@[s]),
{
    let p = |s: StopRow| GtfsRepo::name_matches(s, q@);
    let row = repo.stops@[s];
    let found = repo.stops_named(q@);
    let kept = repo.stops@.filter(p);
    let sorted = ordered(found, served_then_name());
    lemma_occurs(lowercase(row.stop_name@), lowercase(trimmed(q@)));
    crate::table::lemma_filter_items(repo.stops@, p);
    assert(p(row) && repo.stops@.contains(row));
    assert(kept.contains(row));
    let k = choose|k: int| 0 <= k < kept.len() && kept[k] == row;
    let item = (row.as_stop(), is_served(repo.stop_times@, row.stop_id@));
    assert(found[k] == item);
    assert(found.contains(item));
    crate::order::ordered_keeps_items(found, served_then_name());
    crate::order::ordered_has_the_same_items(found, served_then_name());
    assert(sorted.contains(item));
    let n = choose|n: int| 0 <= n < sorted.len() && sorted[n] == item;
    assert(r@[n] == row.as_stop());
    n
}

/// The stops found by name that are served come first; within each group the
/// names are in order.
pub proof fn found_stops_come_served_first(
    repo: &GtfsRepo,
    q: &str,
    limit: usize,
    r: Vec<Stop>,
    i: int,
    j: int,
)
    requires
        call_ensures(GtfsRepo::search_stops, (repo, q, limit), r),
        0 <= i < j < r@.len(),
    ensures
        is_called_at(*repo, r@[j].stop_id@) ==> is_called_at(*repo, r@[i].stop_id@),
        is_called_at(*repo, r@[i].stop_id@) == is_called_at(*repo, r@[j].stop_id@) ==> !text_lt(
            r@[j].name@,
            r@[i].name@,
        ),
{
    crate::order::ordered_keeps_items(repo.stops_named(q@), served_then_name());
    crate::timetable::served_stops_are_found_first(*repo, q@, i, j);
    lemma_found_from(*repo, q@, i);
    lemma_found_from(*repo, q@, j);
}

/// Whether a distance lies within a radius: both are bits of IEEE 754 doubles. A
/// radius that is negative or no number holds nothing, but for the zero with a
/// minus sign, which holds the distance zero.
pub open spec fn is_near(metres: u64, radius: u64) -> bool {
    &&& radius <= 0x7ff0_0000_0000_0000 ==> metres <= radius
    &&& radius > 0x7ff0_0000_0000_0000 ==> radius == 0x8000_0000_0000_0000 && metres == 0
}

/// Whether a nearby stop is told as its row and its distance have it.
pub open spec fn is_near_row(repo: GtfsRepo, near: NearbyStop, metres: Seq<u64>, s: int) -> bool {
    &&& 0 <= s < repo.stops@.len()
    &&& is_row(near.stop, repo.stops@[s])
    &&& near.metres == metres[s]
    &&& near.served == is_called_at(repo, repo.stops@[s].stop_id@)
}

/// Each stop near a point is a stop of the timetable, at its distance, which lies
/// within the radius; there are twenty at most.
pub proof fn a_nearby_stop_lies_within(
    repo: &GtfsRepo,
    metres: &[u64],
    radius: u64,
    r: Vec<NearbyStop>,
    n: int,
) -> (s: int)
    requires
        metres@.len() == repo.stops@.len(),
        call_ensures(GtfsRepo::nearby_stops, (repo, metres, radius), r),
        0 <= n < r@.len(),
    ensures
        r@.len() <= 20,
        is_near_row(*repo, r@[n], metres@, s),
        is_near(metres@[s], radius),
{
    let within = repo.stops_within(metres@, radius);
    let sorted = ordered(within, served_then_near());
    let all = Seq::new(
        repo.stops@.len(),
        |i: int|
            NearbyStop {
                stop: repo.stops@[i].as_stop(),
                metres: metres@[i],
                served: is_served(repo.stop_times@, repo.stops@[i].stop_id@),
            },
    );
    let p = |n: NearbyStop| crate::domain::within(n.metres, radius);
    crate::table::lemma_filter_items(all, p);
    crate::order::ordered_keeps_items(within, served_then_near());
    crate::order::ordered_has_the_same_items(within, served_then_near());
    assert(r@[n] == sorted[n]);
    assert(sorted.contains(r@[n]));
    assert(within.contains(r@[n]));
    let k = choose|k: int| 0 <= k < within.len() && within[k] == r@[n];
    assert(p(within[k]) && all.contains(within[k]));
    choose|s: int| 0 <= s < all.len() && all[s] == r@[n]
}

/// Every stop within the radius is told, unless twenty are; those that are served
/// come first, and within each group the distance never falls.
pub proof fn every_stop_within_is_near(
    repo: &GtfsRepo,
    metres: &[u64],
    radius: u64,
    r: Vec<NearbyStop>,
    s: int,
) -> (n: int)
    requires
        metres@.len() == repo.stops@.len(),
        call_ensures(GtfsRepo::nearby_stops, (repo, metres, radius), r),
        0 <= s < repo.stops@.len(),
        is_near(metres@[s], radius),
        r@.len() < 20,
    ensures
        0 <= n < r@.len(),
        is_near_row(*repo, r@[n], metres@, s),
{
    let within = repo.stops_within(metres@, radius);
    let sorted = ordered(within, served_then_near());
    let all = Seq::new(
        repo.stops@.len(),
        |i: int|
            NearbyStop {
                stop: repo.stops@[i].as_stop(),
                metres: metres@[i],
                served: is_served(repo.stop_times@, repo.stops@[i].stop_id@),
            },
    );
    let p = |n: NearbyStop| crate::domain::within(n.metres, radius);
    crate::table::lemma_filter_items(all, p);
    crate::order::ordered_keeps_items(within, served_then_near());
    crate::order::ordered_has_the_same_items(within, served_then_near());
    assert(p(all[s]) && all.contains(all[s]));
    assert(within.contains(all[s]));
    assert(sorted.contains(all[s]));
    choose|n: int| 0 <= n < sorted.len() && sorted[n] == all[s]
}

/// Among the stops near a point those that are served come first, and within each
/// group the nearer one does.
pub proof fn nearby_stops_come_served_then_near(
    repo: &GtfsRepo,
    metres: &[u64],
    radius: u64,
    r: Vec<NearbyStop>,
    i: int,
    j: int,
)
    requires
        metres@.len() == repo.stops@.len(),
        call_ensures(GtfsRepo::nearby_stops, (repo, metres, radius), r),
        0 <= i < j < r@.len(),
    ensures
        r@[j].served ==> r@[i].served,
        r@[i].served == r@[j].served ==> r@[i].metres <= r@[j].metres,
{
    crate::order::ordered_keeps_items(repo.stops_within(metres@, radius), served_then_near());
    crate::timetable::nearby_stops_are_served_then_near(*repo, metres@, radius, i, j);
}

/// The nearest stop is the first of those near the point; there is none exactly
/// where no stop lies within the radius.
pub proof fn the_nearest_stop_is_the_first(
    repo: &GtfsRepo,
    metres: &[u64],
    radius: u64,
    near: Vec<NearbyStop>,
    r: Option<Stop>,
)
    requires
        metres@.len() == repo.stops@.len(),
        call_ensures(GtfsRepo::nearby_stops, (repo, metres, radius), near),
        call_ensures(GtfsRepo::nearest_stop, (repo, metres, radius), r),
    ensures
        r is Some <==> near@.len() > 0,
        r matches Some(s) ==> s == near@[0].stop,
{
}

/// Whether a stop is a station or a served platform of it.
pub open spec fn is_of_station(repo: GtfsRepo, s: int, station: Seq<char>) -> bool {
    &&& 0 <= s < repo.stops@.len()
    &&& repo.stops@[s].stop_id@ == station || (repo.stops@[s].parent_station matches Some(p) && p@
        == station && is_called_at(repo, repo.stops@[s].stop_id@))
}

/// The stops of a station are the station itself and its served platforms, by
/// name.
pub proof fn a_station_has_its_served_platforms(
    repo: &GtfsRepo,
    station: &str,
    r: Vec<Stop>,
    i: int,
    j: int,
) -> (s: int)
    requires
        call_ensures(GtfsRepo::station_stops, (repo, station), r),
        0 <= i <= j < r@.len(),
    ensures
        is_of_station(*repo, s, station@),
        is_row(r@[i], repo.stops@[s]),
        !text_lt(r@[j].name@, r@[i].name@),
{
    let p = |s: StopRow| repo.belongs_to(s, station@);
    let kept = repo.stops@.filter(p);
    let all = kept.map_values(|s: StopRow| s.as_stop());
    crate::table::lemma_filter_items(repo.stops@, p);
    crate::timetable::answers_have_an_order();
    crate::order::ordered_keeps_items(all, by_name());
    crate::order::ordered_has_the_same_items(all, by_name());
    crate::order::ordered_is_in_order(all, by_name());
    crate::text::text_lt_irreflexive(r@[i].name@);
    if i < j {
        assert(!by_name()(r@[j], r@[i]));
    }
    assert(r@.contains(r@[i]));
    assert(all.contains(r@[i]));
    let k = choose|k: int| 0 <= k < all.len() && all[k] == r@[i];
    assert(p(kept[k]) && repo.stops@.contains(kept[k]));
    choose|s: int| 0 <= s < repo.stops@.len() && repo.stops@[s] == kept[k]
}

/// The station itself and every served platform of it are among the stops of the
/// station.
pub proof fn every_served_platform_is_of_its_station(
    repo: &GtfsRepo,
    station: &str,
    r: Vec<Stop>,
    s: int,
) -> (n: int)
    requires
        call_ensures(GtfsRepo::station_stops, (repo, station), r),
        is_of_station(*repo, s, station@),
    ensures
        0 <= n < r@.len(),
        is_row(r@[n], repo.stops@[s]),
{
    let p = |s: StopRow| repo.belongs_to(s, station@);
    let row = repo.stops@[s];
    let kept = repo.stops@.filter(p);
    let all = kept.map_values(|s: StopRow| s.as_stop());
    crate::table::lemma_filter_items(repo.stops@, p);
    crate::order::ordered_has_the_same_items(all, by_name());
    assert(p(row) && repo.stops@.contains(row));
    assert(kept.contains(row));
    let k = choose|k: int| 0 <= k < kept.len() && kept[k] == row;
    assert(all[k] == row.as_stop());
    assert(all.contains(row.as_stop()));
    assert(r@.contains(row.as_stop()));
    choose|n: int| 0 <= n < r@.len() && r@[n] == row.as_stop()
}

/// Whether a trip of a line calls at a stop.
pub open spec fn line_goes_by(repo: GtfsRepo, route_id: Seq<char>, stop_id: Seq<char>) -> bool {
    exists|i: int, t: int|
        #![trigger repo.stop_times@[i], repo.trips@[t]]
        0 <= i < repo.stop_times@.len() && 0 <= t < repo.trips@.len()
            && repo.stop_times@[i].stop_id@ == stop_id && repo.stop_times@[i].trip_id@
            == repo.trips@[t].trip_id@ && repo.trips@[t].route_id@ == route_id
}

proof fn lemma_line_goes_by(repo: GtfsRepo, route_id: Seq<char>, stop_id: Seq<char>)
    ensures
        repo.line_calls_at(route_id, stop_id) <==> line_goes_by(repo, route_id, stop_id),
{
    if repo.line_calls_at(route_id, stop_id) {
        let i = choose|i: int|
            0 <= i < repo.stop_times@.len() && repo.is_call_of(
                #[trigger] repo.stop_times@[i],
                route_id,
                stop_id,
            );
        let t = choose|t: int|
            0 <= t < repo.trips@.len() && (#[trigger] repo.trips@[t]).trip_id@
                == repo.stop_times@[i].trip_id@ && repo.trips@[t].route_id@ == route_id;
        assert(repo.stop_times@[i].trip_id@ == repo.trips@[t].trip_id@);
    }
    if line_goes_by(repo, route_id, stop_id) {
        let (i, t) = choose|i: int, t: int|
            #![trigger repo.stop_times@[i], repo.trips@[t]]
            0 <= i < repo.stop_times@.len() && 0 <= t < repo.trips@.len()
                && repo.stop_times@[i].stop_id@ == stop_id && repo.stop_times@[i].trip_id@
                == repo.trips@[t].trip_id@ && repo.trips@[t].route_id@ == route_id;
        assert(repo.is_call_of(repo.stop_times@[i], route_id, stop_id));
    }
}

/// The lines of a stop are lines of the timetable with a trip that calls there, by
/// their short names.
pub proof fn a_line_of_a_stop_calls_there(
    repo: &GtfsRepo,
    stop_id: &str,
    r: Vec<Line>,
    i: int,
    j: int,
) -> (x: int)
    requires
        call_ensures(GtfsRepo::lines_for_stop, (repo, stop_id), r),
        0 <= i <= j < r@.len(),
    ensures
        0 <= x < repo.routes@.len(),
        is_route_row(r@[i], repo.routes@[x]),
        line_goes_by(*repo, r@[i].route_id@, stop_id@),
        !text_lt(r@[j].short_name@, r@[i].short_name@),
{
    let p = |x: RouteRow| repo.line_calls_at(x.route_id@, stop_id@);
    let kept = repo.routes@.filter(p);
    let all = kept.map_values(|x: RouteRow| x.as_line());
    crate::table::lemma_filter_items(repo.routes@, p);
    crate::timetable::answers_have_an_order();
    crate::order::ordered_keeps_items(all, by_short_name());
    crate::order::ordered_has_the_same_items(all, by_short_name());
    crate::order::ordered_is_in_order(all, by_short_name());
    crate::text::text_lt_irreflexive(r@[i].short_name@);
    if i < j {
        assert(!by_short_name()(r@[j], r@[i]));
    }
    assert(r@.contains(r@[i]));
    assert(all.contains(r@[i]));
    let k = choose|k: int| 0 <= k < all.len() && all[k] == r@[i];
    assert(p(kept[k]) && repo.routes@.contains(kept[k]));
    lemma_line_goes_by(*repo, kept[k].route_id@, stop_id@);
    choose|x: int| 0 <= x < repo.routes@.len() && repo.routes@[x] == kept[k]
}

/// Every line of the timetable with a trip that calls at a stop is among its
/// lines.
pub proof fn every_line_that_calls_there_is_listed(
    repo: &GtfsRepo,
    stop_id: &str,
    r: Vec<Line>,
    x: int,
) -> (n: int)
    requires
        call_ensures(GtfsRepo::lines_for_stop, (repo, stop_id), r),
        0 <= x < repo.routes@.len(),
        line_goes_by(*repo, repo.routes@[x].route_id@, stop_id@),
    ensures
        0 <= n < r@.len(),
        is_route_row(r@[n], repo.routes@[x]),
{
    let p = |x: RouteRow| repo.line_calls_at(x.route_id@, stop_id@);
    let row = repo.routes@[x];
    let kept = repo.routes@.filter(p);
    let all = kept.map_values(|x: RouteRow| x.as_line());
    lemma_line_goes_by(*repo, row.route_id@, stop_id@);
    crate::table::lemma_filter_items(repo.routes@, p);
    crate::order::ordered_has_the_same_items(all, by_short_name());
    assert(p(row) && repo.routes@.contains(row));
    assert(kept.contains(row));
    let k = choose|k: int| 0 <= k < kept.len() && kept[k] == row;
    assert(all[k] == row.as_line());
    assert(all.contains(row.as_line()));
    assert(r@.contains(row.as_line()));
    choose|n: int| 0 <= n < r@.len() && r@[n] == row.as_line()
}

/// Whether `sd` is a departure of call `x`, on trip row `t` of a listed service,
/// from a stop between two times, both included.
pub open spec fn is_departure_of(
    repo: GtfsRepo,
    sd: ScheduledDeparture,
    x: int,
    t: int,
    stop_id: Seq<char>,
    services: Seq<String>,
    from: int,
    to: int,
) -> bool {
    &&& departs(repo, x, t, stop_id, services, from, to)
    &&& sd.trip_id@ == repo.stop_times@[x].trip_id@
    &&& sd.stop_sequence == repo.stop_times@[x].stop_sequence
    &&& repo.stop_times@[x].departure_secs == Some(sd.departure_secs)
    &&& sd.route_id@ == repo.trips@[t].route_id@
    &&& sd.headsign@ == repo.trips@[t].headsign@
}

/// Whether call `x` departs from a stop between two times, on trip row `t` of a
/// listed service.
pub open spec fn departs(
    repo: GtfsRepo,
    x: int,
    t: int,
    stop_id: Seq<char>,
    services: Seq<String>,
    from: int,
    to: int,
) -> bool {
    &&& 0 <= x < repo.stop_times@.len()
    &&& is_first_trip(repo.trips@, t, repo.stop_times@[x].trip_id@)
    &&& repo.stop_times@[x].stop_id@ == stop_id
    &&& has_entry(services, repo.trips@[t].service_id@)
    &&& repo.stop_times@[x].departure_secs matches Some(secs) && from <= secs <= to
}

/// The planned departures of a stop are calls there on trips of the services
/// given, within the window, by time; no more than asked for.
pub proof fn a_planned_departure_is_a_call_there(
    repo: &GtfsRepo,
    stop_id: &str,
    services: &[String],
    from: i64,
    horizon: i64,
    limit: usize,
    r: Vec<ScheduledDeparture>,
    i: int,
    j: int,
) -> (w: (int, int))
    requires
        call_ensures(
            GtfsRepo::departures_at_stop,
            (repo, stop_id, services, from, horizon, limit),
            r,
        ),
        0 <= i <= j < r@.len(),
    ensures
        r@.len() <= limit,
        is_departure_of(
            *repo,
            r@[i],
            w.0,
            w.1,
            stop_id@,
            services@,
            from as int,
            from + horizon,
        ),
        r@[i].departure_secs <= r@[j].departure_secs,
{
    let within = repo.departures_within(stop_id@, services@, from as int, horizon as int);
    crate::timetable::answers_have_an_order();
    crate::order::ordered_keeps_items(within, by_departure());
    crate::order::ordered_is_in_order(within, by_departure());
    let st = crate::timetable::lemma_departure_from(
        *repo,
        stop_id@,
        services@,
        from as int,
        horizon as int,
        i,
    );
    if i < j {
        let sorted = ordered(within, by_departure());
        assert(!by_departure()(sorted[j], sorted[i]));
    }
    let x = choose|x: int| 0 <= x < repo.stop_times@.len() && repo.stop_times@[x] == st;
    a_trip_is_its_first_row(repo.trips@, st.trip_id);
    let row = crate::timetable::trip_row(repo.trips@, st.trip_id@)->0;
    let t = choose|t: int|
        is_first_trip(repo.trips@, t, st.trip_id@) && #[trigger] repo.trips@[t] == row;
    assert(has_entry(services@, repo.trips@[t].service_id@));
    (x, t)
}

/// Every call at a stop within the window on a trip of the services given is among
/// the planned departures, unless as many as asked for are.
pub proof fn every_call_in_the_window_is_planned(
    repo: &GtfsRepo,
    stop_id: &str,
    services: &[String],
    from: i64,
    horizon: i64,
    limit: usize,
    r: Vec<ScheduledDeparture>,
    x: int,
    t: int,
) -> (n: int)
    requires
        call_ensures(
            GtfsRepo::departures_at_stop,
            (repo, stop_id, services, from, horizon, limit),
            r,
        ),
        departs(*repo, x, t, stop_id@, services@, from as int, from + horizon),
        r@.len() < limit,
    ensures
        0 <= n < r@.len(),
        is_departure_of(
            *repo,
            r@[n],
            x,
            t,
            stop_id@,
            services@,
            from as int,
            from + horizon,
        ),
{
    let st = repo.stop_times@[x];
    let q = |y: StopTimeRow|
        repo.departs_within(y, stop_id@, services@, from as int, horizon as int);
    let within = repo.departures_within(stop_id@, services@, from as int, horizon as int);
    let kept = repo.stop_times@.filter(q);
    let sorted = ordered(within, by_departure());
    a_trip_is_its_first_row(repo.trips@, st.trip_id);
    assert(crate::timetable::trip_row(repo.trips@, st.trip_id@) == Some(repo.trips@[t]));
    assert(crate::timetable::is_listed(services@, repo.trips@[t].service_id@));
    crate::table::lemma_filter_items(repo.stop_times@, q);
    assert(q(st) && repo.stop_times@.contains(st));
    assert(kept.contains(st));
    let k = choose|k: int| 0 <= k < kept.len() && kept[k] == st;
    assert(within[k] == repo.departure_of(st));
    assert(within.contains(repo.departure_of(st)));
    crate::order::ordered_keeps_items(within, by_departure());
    crate::order::ordered_has_the_same_items(within, by_departure());
    assert(sorted.contains(repo.departure_of(st)));
    choose|n: int| 0 <= n < sorted.len() && sorted[n] == repo.departure_of(st)
}

} // verus!
