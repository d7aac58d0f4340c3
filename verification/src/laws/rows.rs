//! The row that a question by key finds: the first one with that key.

use crate::loader::{RouteRow, StopRow, TripRow};
use crate::timetable::{trip_row, GtfsRepo};
use vstd::prelude::*;

verus! {

/// Whether row `t` is the first of a trip.
pub open spec fn is_first_trip(trips: Seq<TripRow>, t: int, trip_id: Seq<char>) -> bool {
    &&& 0 <= t < trips.len()
    &&& trips[t].trip_id@ == trip_id
    &&& forall|u: int| 0 <= u < t ==> (#[trigger] trips[u]).trip_id@ != trip_id
}

/// Whether row `s` is the first of a stop.
pub open spec fn is_first_stop(stops: Seq<StopRow>, s: int, stop_id: Seq<char>) -> bool {
    &&& 0 <= s < stops.len()
    &&& stops[s].stop_id@ == stop_id
    &&& forall|u: int| 0 <= u < s ==> (#[trigger] stops[u]).stop_id@ != stop_id
}

/// Whether row `x` is the first of a line.
pub open spec fn is_first_route(routes: Seq<RouteRow>, x: int, route_id: Seq<char>) -> bool {
    &&& 0 <= x < routes.len()
    &&& routes[x].route_id@ == route_id
    &&& forall|u: int| 0 <= u < x ==> (#[trigger] routes[u]).route_id@ != route_id
}

pub(crate) proof fn lemma_first_kept<T>(s: Seq<T>, p: spec_fn(T) -> bool) -> (i: int)
    requires
        s.filter(p).len() > 0,
    ensures
        0 <= i < s.len(),
        p(s[i]),
        forall|j: int| 0 <= j < i ==> !p(#[trigger] s[j]),
        s.filter(p)[0] == s[i],
{
    crate::table::lemma_filter_items(s, p);
    let x = s.filter(p)[0];
    assert(p(x) && s.contains(x));
    let k = choose|k: int| 0 <= k < s.len() && s[k] == x;
    let i = lemma_least(s, p, k);
    crate::table::lemma_first_of_filter(s, p, i);
    i
}

proof fn lemma_least<T>(s: Seq<T>, p: spec_fn(T) -> bool, k: int) -> (i: int)
    requires
        0 <= k < s.len(),
        p(s[k]),
    ensures
        0 <= i <= k,
        p(s[i]),
        forall|j: int| 0 <= j < i ==> !p(#[trigger] s[j]),
    decreases k,
{
    if exists|j: int| 0 <= j < k && p(#[trigger] s[j]) {
        let j = choose|j: int| 0 <= j < k && p(#[trigger] s[j]);
        lemma_least(s, p, j)
    } else {
        k
    }
}

/// A trip is the first row with its key, and there is none exactly where no row
/// has the key.
pub proof fn a_trip_is_its_first_row(trips: Seq<TripRow>, trip_id: String)
    ensures
        forall|t: int|
            #![trigger trips[t]]
            is_first_trip(trips, t, trip_id@) ==> trip_row(trips, trip_id@) == Some(trips[t]),
        trip_row(trips, trip_id@) matches Some(x) ==> exists|t: int|
            is_first_trip(trips, t, trip_id@) && #[trigger] trips[t] == x,
{
    let p = |t: TripRow| t.trip_id@ == trip_id@;
    assert forall|t: int| #![trigger trips[t]] is_first_trip(trips, t, trip_id@) implies trip_row(
        trips,
        trip_id@,
    ) == Some(trips[t]) by {
        crate::table::lemma_first_of_filter(trips, p, t);
    }
    if trips.filter(p).len() > 0 {
        let t = lemma_first_kept(trips, p);
        assert(is_first_trip(trips, t, trip_id@) && trips[t] == trips.filter(p)[0]);
    }
}

/// A stop is the first row with its key, and there is none exactly where no row
/// has the key.
pub proof fn a_stop_is_its_first_row(stops: Seq<StopRow>, stop_id: String)
    ensures
        forall|s: int|
            #![trigger stops[s]]
            is_first_stop(stops, s, stop_id@) ==> GtfsRepo::stop_row(stops, stop_id@) == Some(
                stops[s],
            ),
        GtfsRepo::stop_row(stops, stop_id@) matches Some(x) ==> exists|s: int|
            is_first_stop(stops, s, stop_id@) && #[trigger] stops[s] == x,
{
    let p = |s: StopRow| s.stop_id@ == stop_id@;
    assert forall|s: int|
        #![trigger stops[s]]
        is_first_stop(stops, s, stop_id@) implies GtfsRepo::stop_row(stops, stop_id@) == Some(
        stops[s],
    ) by {
        crate::table::lemma_first_of_filter(stops, p, s);
    }
    if stops.filter(p).len() > 0 {
        let s = lemma_first_kept(stops, p);
        assert(is_first_stop(stops, s, stop_id@) && stops[s] == stops.filter(p)[0]);
    }
}

/// A line is the first row with its key, and there is none exactly where no row
/// has the key.
pub proof fn a_route_is_its_first_row(routes: Seq<RouteRow>, route_id: String)
    ensures
        forall|x: int|
            #![trigger routes[x]]
            is_first_route(routes, x, route_id@) ==> GtfsRepo::route_row(routes, route_id@)
                == Some(routes[x]),
        GtfsRepo::route_row(routes, route_id@) matches Some(y) ==> exists|x: int|
            is_first_route(routes, x, route_id@) && #[trigger] routes[x] == y,
{
    let p = |x: RouteRow| x.route_id@ == route_id@;
    assert forall|x: int|
        #![trigger routes[x]]
        is_first_route(routes, x, route_id@) implies GtfsRepo::route_row(routes, route_id@)
        == Some(routes[x]) by {
        crate::table::lemma_first_of_filter(routes, p, x);
    }
    if routes.filter(p).len() > 0 {
        let x = lemma_first_kept(routes, p);
        assert(is_first_route(routes, x, route_id@) && routes[x] == routes.filter(p)[0]);
    }
}

} // verus!
