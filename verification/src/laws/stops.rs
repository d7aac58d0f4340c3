//! Laws of the status of a stop: which departures are told, what is told of each,
//! and how the lines are judged.

use crate::archive::{AlertRecord, AlertTrip, Archive, Observation};
use crate::calendar::{brussels_earliest, compact_date, weekday, LocalDateTime};
use crate::domain::{Departure, LineStatus, ServiceStatus, StopStatus};
use crate::gtfs::GtfsError;
use crate::laws::cancelled::{
    is_called_off, is_latest, is_latest_alert, lemma_called_off, lemma_latest, lemma_latest_alert,
};
use crate::laws::rows::{
    a_route_is_its_first_row, a_stop_is_its_first_row, a_trip_is_its_first_row, is_first_route,
    is_first_stop, is_first_trip,
};
use crate::loader::{StopRow, StopTimeRow};
use crate::order::ordered;
use crate::status::{
    by_line_name, calls_of, calls_there, cancels, hit, lines_in, StatusService,
};
use crate::timetable::{by_departure, by_name, GtfsRepo, ScheduledDeparture};
use vstd::prelude::*;

verus! {

/// Whether some text of a list is this one.
pub open spec fn has_entry(list: Seq<String>, text: Seq<char>) -> bool {
    exists|k: int| 0 <= k < list.len() && (#[trigger] list[k])@ == text
}

/// Whether a trip calls at a stop, at that place in the trip.
pub open spec fn calls_with(
    repo: GtfsRepo,
    trip_id: Seq<char>,
    stop_sequence: i64,
    stop_id: Seq<char>,
) -> bool {
    exists|i: int|
        0 <= i < repo.stop_times@.len() && (#[trigger] repo.stop_times@[i]).trip_id@ == trip_id
            && repo.stop_times@[i].stop_sequence == stop_sequence && repo.stop_times@[i].stop_id@
            == stop_id
}

/// Whether stop row `s` is the stop itself or a platform of it.
pub open spec fn is_at(repo: GtfsRepo, s: int, stop_id: Seq<char>) -> bool {
    &&& 0 <= s < repo.stops@.len()
    &&& repo.stops@[s].stop_id@ == stop_id || (repo.stops@[s].parent_station matches Some(p) && p@
        == stop_id)
}

/// Whether a trip calls at the stop, or at a platform of it.
pub open spec fn goes_by(repo: GtfsRepo, trip_id: Seq<char>, stop_id: Seq<char>) -> bool {
    exists|i: int|
        0 <= i < repo.stop_times@.len() && (#[trigger] repo.stop_times@[i]).trip_id@ == trip_id && (
        repo.stop_times@[i].stop_id@ == stop_id || exists|s: int|
            is_at(repo, s, stop_id) && (#[trigger] repo.stops@[s]).stop_id@
                == repo.stop_times@[i].stop_id@)
}

/// Whether call `x` leaves the stop, or a platform of it (stop row `s`), within
/// an hour of `from` seconds after midnight, on a trip (row `t`) of a listed
/// service.
pub open spec fn leaves(
    repo: GtfsRepo,
    x: int,
    t: int,
    s: int,
    stop_id: Seq<char>,
    services: Seq<String>,
    from: int,
) -> bool {
    &&& 0 <= x < repo.stop_times@.len()
    &&& is_first_trip(repo.trips@, t, repo.stop_times@[x].trip_id@)
    &&& has_entry(services, repo.trips@[t].service_id@)
    &&& is_at(repo, s, stop_id)
    &&& repo.stop_times@[x].stop_id@ == repo.stops@[s].stop_id@
    &&& repo.stop_times@[x].departure_secs matches Some(secs) && from <= secs <= from + 3600
}

/// Whether observation `k` is of the newest feed, of that trip at that place.
pub open spec fn sees(archive: Archive, k: int, trip_id: Seq<char>, stop_sequence: i64) -> bool {
    &&& is_latest(archive, k)
    &&& archive.observations@[k].trip_id@ == trip_id
    &&& archive.observations@[k].stop_sequence == stop_sequence
}

/// Whether observation `k` is the only one of the newest feed of that trip at
/// that place.
pub open spec fn alone_sees(
    archive: Archive,
    k: int,
    trip_id: Seq<char>,
    stop_sequence: i64,
) -> bool {
    &&& sees(archive, k, trip_id, stop_sequence)
    &&& forall|j: int| #[trigger] sees(archive, j, trip_id, stop_sequence) ==> j == k
}

/// Whether an instant in milliseconds from 1970-01-01T00:00:00 UTC has a date.
pub open spec fn has_date(ms: int) -> bool {
    -8_334_601_228_800_000 <= ms <= 8_210_266_876_799_999
}

/// Whether `d` tells of a departure of a trip, `stop_sequence` being its place,
/// at a stop: an observed instant is the prediction of a newest observation of
/// this trip at this place, and the only such observation gives it; cancelled is
/// what an alert calls off on its way by the stop, and what is skipped here.
pub open spec fn tells_what_was_seen(
    service: StatusService,
    d: Departure,
    stop_sequence: i64,
    stop_id: Seq<char>,
) -> bool {
    let archive = service.archive;
    let obs = archive.observations@;
    let trip_id = d.trip_id@;
    let off = is_called_off(archive, trip_id) && goes_by(service.repo, trip_id, stop_id);
    &&& d.observed matches Some(o) ==> exists|k: int|
        sees(archive, k, trip_id, stop_sequence) && (#[trigger] obs[k]).predicted_ms == Some(o)
            && has_date(o as int)
    &&& d.observed is Some ==> calls_with(service.repo, trip_id, stop_sequence, stop_id)
    &&& forall|k: int|
        alone_sees(archive, k, trip_id, stop_sequence) && calls_with(
            service.repo,
            trip_id,
            stop_sequence,
            stop_id,
        ) ==> {
            &&& (#[trigger] obs[k]).predicted_ms matches Some(o) ==> (has_date(o as int)
                ==> d.observed == Some(o))
            &&& d.cancelled <==> off || obs[k].schedule_relationship == 1
        }
    &&& off ==> d.cancelled
    &&& d.cancelled && !off ==> calls_with(service.repo, trip_id, stop_sequence, stop_id)
        && exists|k: int|
            sees(archive, k, trip_id, stop_sequence) && (
            #[trigger] obs[k]).schedule_relationship == 1
}

proof fn lemma_goes_by(repo: GtfsRepo, trip_id: Seq<char>, stop_id: Seq<char>)
    ensures
        crate::status::trip_serves(repo, trip_id, stop_id) <==> goes_by(repo, trip_id, stop_id),
{
    if crate::status::trip_serves(repo, trip_id, stop_id) {
        if crate::status::trip_calls_at(repo, trip_id, stop_id) {
            let i = choose|i: int|
                0 <= i < repo.stop_times@.len() && (#[trigger] repo.stop_times@[i]).trip_id@
                    == trip_id && repo.stop_times@[i].stop_id@ == stop_id;
            assert(repo.stop_times@[i].trip_id@ == trip_id);
        } else {
            let s = choose|s: int|
                0 <= s < repo.stops@.len() && crate::status::is_platform_of(
                    #[trigger] repo.stops@[s],
                    stop_id,
                ) && crate::status::trip_calls_at(repo, trip_id, repo.stops@[s].stop_id@);
            let i = choose|i: int|
                0 <= i < repo.stop_times@.len() && (#[trigger] repo.stop_times@[i]).trip_id@
                    == trip_id && repo.stop_times@[i].stop_id@ == repo.stops@[s].stop_id@;
            assert(is_at(repo, s, stop_id));
            assert(repo.stops@[s].stop_id@ == repo.stop_times@[i].stop_id@);
        }
    }
    if goes_by(repo, trip_id, stop_id) {
        let i = choose|i: int|
            0 <= i < repo.stop_times@.len() && (#[trigger] repo.stop_times@[i]).trip_id@ == trip_id
                && (repo.stop_times@[i].stop_id@ == stop_id || exists|s: int|
                is_at(repo, s, stop_id) && (#[trigger] repo.stops@[s]).stop_id@
                    == repo.stop_times@[i].stop_id@);
        if repo.stop_times@[i].stop_id@ == stop_id {
            assert(crate::status::trip_calls_at(repo, trip_id, stop_id));
        } else {
            let s = choose|s: int|
                is_at(repo, s, stop_id) && (#[trigger] repo.stops@[s]).stop_id@
                    == repo.stop_times@[i].stop_id@;
            assert(crate::status::trip_calls_at(repo, trip_id, repo.stops@[s].stop_id@));
            assert(crate::status::is_platform_of(repo.stops@[s], stop_id));
        }
    }
}

proof fn lemma_cancelled_by_link(
    service: StatusService,
    sd: ScheduledDeparture,
    stop_id: Seq<char>,
)
    ensures
        (exists|i: int|
            0 <= i < service.archive.alert_trips@.len() && service.cancels_at(
                #[trigger] service.archive.alert_trips@[i],
                stop_id,
            ) && service.archive.alert_trips@[i].trip_id@ == sd.trip_id@) <==> (is_called_off(
            service.archive,
            sd.trip_id@,
        ) && goes_by(service.repo, sd.trip_id@, stop_id)),
{
    let links = service.archive.alert_trips@;
    lemma_called_off(service.archive, sd.trip_id@);
    lemma_goes_by(service.repo, sd.trip_id@, stop_id);
    if crate::today::is_cancelled_by_alert(service.archive, sd.trip_id@)
        && crate::status::trip_serves(service.repo, sd.trip_id@, stop_id) {
        let i = choose|i: int|
            0 <= i < links.len() && (#[trigger] links[i]).trip_id@ == sd.trip_id@ && cancels(
                service.archive,
                links[i],
            );
        assert(service.cancels_at(links[i], stop_id));
    }
    if exists|i: int|
        0 <= i < links.len() && service.cancels_at(#[trigger] links[i], stop_id)
            && links[i].trip_id@ == sd.trip_id@ {
        let i = choose|i: int|
            0 <= i < links.len() && service.cancels_at(#[trigger] links[i], stop_id)
                && links[i].trip_id@ == sd.trip_id@;
        assert(cancels(service.archive, links[i]));
    }
}

/// A planned departure is told with what was seen of its trip at its place, and
/// with nothing that was seen elsewhere.
pub proof fn a_departure_tells_what_was_seen(
    service: StatusService,
    sd: ScheduledDeparture,
    stop_id: Seq<char>,
    services: Seq<String>,
    now: LocalDateTime,
    t: int,
)
    requires
        0 <= t < service.repo.trips@.len(),
        service.repo.trips@[t].trip_id@ == sd.trip_id@,
        has_entry(services, service.repo.trips@[t].service_id@),
    ensures
        tells_what_was_seen(
            service,
            service.departure_at(sd, stop_id, services, now),
            sd.stop_sequence,
            stop_id,
        ),
{
    let archive = service.archive;
    let obs = archive.observations@;
    let d = service.departure_at(sd, stop_id, services, now);
    let trip_id = sd.trip_id@;
    let q = |o: Observation| service.counts(o, stop_id, services);
    let p = |o: Observation| o.trip_id@ == sd.trip_id@ && o.stop_sequence == sd.stop_sequence;
    let rt = service.observed_at(stop_id, services);
    let found = rt.filter(p);
    crate::table::lemma_filter_items(obs, q);
    crate::table::lemma_filter_items(rt, p);
    crate::status::only_the_trips_concerned_are_cancelled(service, sd, stop_id, services, now);
    lemma_cancelled_by_link(service, sd, stop_id);
    let seen = hit(rt, sd.trip_id@, sd.stop_sequence);
    assert(crate::timetable::is_listed(services, service.repo.trips@[t].service_id@));
    if found.len() > 0 {
        let o = found.last();
        assert(p(o) && rt.contains(o));
        let m = choose|m: int| 0 <= m < rt.len() && rt[m] == o;
        assert(q(rt[m]) && obs.contains(rt[m]));
        let k = choose|k: int| 0 <= k < obs.len() && obs[k] == o;
        lemma_latest(archive, k);
        assert(sees(archive, k, trip_id, sd.stop_sequence));
        assert(calls_there(service.repo, o.trip_id@, o.stop_sequence, stop_id, services));
        assert(calls_with(service.repo, trip_id, sd.stop_sequence, stop_id));
        assert(seen == Some(obs[k]));
    }
    assert forall|k: int|
        alone_sees(archive, k, trip_id, sd.stop_sequence) && calls_with(
            service.repo,
            trip_id,
            sd.stop_sequence,
            stop_id,
        ) implies seen == Some(#[trigger] obs[k]) by {
        lemma_latest(archive, k);
        assert(calls_there(service.repo, trip_id, sd.stop_sequence, stop_id, services));
        assert(q(obs[k]) && obs.contains(obs[k]));
        assert(rt.contains(obs[k]) && p(obs[k]));
        assert(found.contains(obs[k]));
        let o = found.last();
        assert(p(o) && rt.contains(o));
        let m = choose|m: int| 0 <= m < rt.len() && rt[m] == o;
        assert(q(rt[m]) && obs.contains(rt[m]));
        let j = choose|j: int| 0 <= j < obs.len() && obs[j] == o;
        lemma_latest(archive, j);
        assert(sees(archive, j, trip_id, sd.stop_sequence));
    }
}

proof fn lemma_call_from(
    repo: GtfsRepo,
    stops: Seq<crate::domain::Stop>,
    services: Seq<String>,
    from: int,
    i: int,
) -> (r: (int, StopTimeRow))
    requires
        0 <= i < calls_of(repo, stops, services, from).len(),
    ensures
        0 <= r.0 < stops.len(),
        repo.stop_times@.contains(r.1),
        repo.departs_within(r.1, stops[r.0].stop_id@, services, from, 3600),
        calls_of(repo, stops, services, from)[i] == repo.departure_of(r.1),
    decreases stops.len(),
{
    let before = calls_of(repo, stops.drop_last(), services, from);
    if i < before.len() {
        let r = lemma_call_from(repo, stops.drop_last(), services, from, i);
        assert(stops.drop_last()[r.0] == stops[r.0]);
        r
    } else {
        let stop_id = stops.last().stop_id@;
        let within = repo.departures_within(stop_id, services, from, 3600);
        crate::order::ordered_keeps_items(within, by_departure());
        let st = crate::timetable::lemma_departure_from(
            repo,
            stop_id,
            services,
            from,
            3600,
            i - before.len(),
        );
        (stops.len() - 1, st)
    }
}

proof fn lemma_platform_from(service: StatusService, stop_id: Seq<char>, j: int) -> (s: int)
    requires
        0 <= j < service.platforms(stop_id).len(),
    ensures
        0 <= s < service.repo.stops@.len(),
        service.repo.belongs_to(service.repo.stops@[s], stop_id),
        service.platforms(stop_id)[j] == service.repo.stops@[s].as_stop(),
{
    let p = |s: StopRow| service.repo.belongs_to(s, stop_id);
    let kept = service.repo.stops@.filter(p);
    let all = kept.map_values(|s: StopRow| s.as_stop());
    let sorted = service.platforms(stop_id);
    crate::table::lemma_filter_items(service.repo.stops@, p);
    crate::order::ordered_has_the_same_items(all, by_name());
    assert(sorted.contains(sorted[j]));
    assert(all.contains(sorted[j]));
    let k = choose|k: int| 0 <= k < all.len() && all[k] == sorted[j];
    assert(p(kept[k]) && service.repo.stops@.contains(kept[k]));
    choose|s: int| 0 <= s < service.repo.stops@.len() && service.repo.stops@[s] == kept[k]
}

/// Whether `sd` is the planned departure of call `x`, on trip row `t`.
pub open spec fn is_planned_as(repo: GtfsRepo, sd: ScheduledDeparture, x: int, t: int) -> bool {
    &&& sd.trip_id@ == repo.stop_times@[x].trip_id@
    &&& sd.stop_sequence == repo.stop_times@[x].stop_sequence
    &&& repo.stop_times@[x].departure_secs == Some(sd.departure_secs)
    &&& sd.route_id@ == repo.trips@[t].route_id@
    &&& sd.headsign@ == repo.trips@[t].headsign@
}

/// Every departure that is looked at is a call at the stop or at a platform of
/// it, within the hour, on a trip of a listed service.
pub proof fn a_planned_departure_leaves_here(
    service: StatusService,
    stop_id: Seq<char>,
    services: Seq<String>,
    now: LocalDateTime,
    i: int,
) -> (r: (int, int, int))
    requires
        0 <= i < service.planned(stop_id, services, now).len(),
    ensures
        leaves(service.repo, r.0, r.1, r.2, stop_id, services, now.secs_of_day()),
        is_planned_as(service.repo, service.planned(stop_id, services, now)[i], r.0, r.1),
{
    let repo = service.repo;
    let stops = service.platforms(stop_id);
    let from = now.secs_of_day();
    let calls = calls_of(repo, stops, services, from);
    let sorted = ordered(calls, by_departure());
    let sd = service.planned(stop_id, services, now)[i];
    crate::order::ordered_keeps_items(calls, by_departure());
    crate::order::ordered_has_the_same_items(calls, by_departure());
    assert(sd == sorted[i]);
    assert(sorted.contains(sd));
    assert(calls.contains(sd));
    let k = choose|k: int| 0 <= k < calls.len() && calls[k] == sd;
    let (j, st) = lemma_call_from(repo, stops, services, from, k);
    let s = lemma_platform_from(service, stop_id, j);
    let x = choose|x: int| 0 <= x < repo.stop_times@.len() && repo.stop_times@[x] == st;
    a_trip_is_its_first_row(repo.trips@, st.trip_id);
    let row = crate::timetable::trip_row(repo.trips@, st.trip_id@)->0;
    let t = choose|t: int|
        is_first_trip(repo.trips@, t, st.trip_id@) && #[trigger] repo.trips@[t] == row;
    assert(has_entry(services, repo.trips@[t].service_id@));
    (x, t, s)
}

proof fn lemma_same_count<T>(a: Seq<T>, b: Seq<T>, p: spec_fn(T) -> bool)
    requires
        a.to_multiset() == b.to_multiset(),
    ensures
        a.filter(p).len() == b.filter(p).len(),
    decreases a.len(),
{
    a.to_multiset_ensures();
    b.to_multiset_ensures();
    if a.len() > 0 {
        let n = a.len() - 1;
        let x = a[n];
        assert(a.contains(x));
        assert(b.to_multiset().count(x) > 0);
        assert(b.contains(x));
        let j = choose|j: int| 0 <= j < b.len() && b[j] == x;
        assert(a.remove(n).to_multiset() =~= a.to_multiset().remove(x));
        assert(b.remove(j).to_multiset() =~= b.to_multiset().remove(x));
        lemma_same_count(a.remove(n), b.remove(j), p);
        lemma_count_but_one(a, n, p);
        lemma_count_but_one(b, j, p);
    } else {
        assert(a =~= b);
    }
}

proof fn lemma_count_but_one<T>(s: Seq<T>, i: int, p: spec_fn(T) -> bool)
    requires
        0 <= i < s.len(),
    ensures
        s.filter(p).len() == s.remove(i).filter(p).len() + (if p(s[i]) {
            1int
        } else {
            0
        }),
{
    let front = s.take(i);
    let one = seq![s[i]];
    let back = s.skip(i + 1);
    assert(s =~= front + one + back);
    assert(s.remove(i) =~= front + back);
    crate::table::lemma_filter_concat(front + one, back, p);
    crate::table::lemma_filter_concat(front, one, p);
    crate::table::lemma_filter_concat(front, back, p);
    crate::table::lemma_filter_all(one, p);
    assert(one[0] == s[i]);
}

/// Whether a departure leaves at `secs` or before.
spec fn leaves_by(secs: i64) -> spec_fn(ScheduledDeparture) -> bool {
    |sd: ScheduledDeparture| sd.departure_secs <= secs
}

proof fn lemma_first_twelve(all: Seq<ScheduledDeparture>, secs: i64)
    requires
        all.filter(leaves_by(secs)).len() >= 12,
    ensures
        all.len() >= 12,
        forall|i: int|
            0 <= i < 12 ==> (#[trigger] ordered(all, by_departure())[i]).departure_secs <= secs,
{
    let p = leaves_by(secs);
    let sorted = ordered(all, by_departure());
    crate::timetable::answers_have_an_order();
    crate::order::ordered_keeps_items(all, by_departure());
    crate::order::ordered_is_in_order(all, by_departure());
    crate::table::lemma_filter_items(all, p);
    lemma_same_count(all, sorted, p);
    if sorted[11].departure_secs > secs {
        let front = sorted.take(11);
        let back = sorted.skip(11);
        assert(sorted =~= front + back);
        crate::table::lemma_filter_concat(front, back, p);
        assert forall|i: int| 0 <= i < back.len() implies !p(#[trigger] back[i]) by {
            assert(back[i] == sorted[11 + i]);
            if i > 0 {
                assert(!by_departure()(sorted[11 + i], sorted[11]));
            }
        }
        crate::table::lemma_filter_all(back, p);
        crate::table::lemma_filter_items(front, p);
    }
    assert forall|i: int| 0 <= i < 12 implies (#[trigger] sorted[i]).departure_secs <= secs by {
        if i < 11 {
            assert(!by_departure()(sorted[11], sorted[i]));
        }
    }
}

proof fn lemma_call_in(
    repo: GtfsRepo,
    stops: Seq<crate::domain::Stop>,
    services: Seq<String>,
    from: int,
    j: int,
    st: StopTimeRow,
)
    requires
        0 <= j < stops.len(),
        repo.stop_times@.contains(st),
        repo.departs_within(st, stops[j].stop_id@, services, from, 3600),
    ensures
        ({
            let calls = calls_of(repo, stops, services, from);
            calls.contains(repo.departure_of(st)) || calls.filter(
                leaves_by(st.departure_secs->0),
            ).len() >= 12
        }),
    decreases stops.len(),
{
    let p = leaves_by(st.departure_secs->0);
    let sd = repo.departure_of(st);
    let calls = calls_of(repo, stops, services, from);
    let before = calls_of(repo, stops.drop_last(), services, from);
    let stop_id = stops.last().stop_id;
    let within = repo.departures_within(stop_id@, services, from, 3600);
    let sorted = ordered(within, by_departure());
    let shown = crate::timetable::at_most(sorted, 12);
    assert(calls == before + shown);
    crate::table::lemma_filter_concat(before, shown, p);
    if j < stops.len() - 1 {
        assert(stops.drop_last()[j] == stops[j]);
        lemma_call_in(repo, stops.drop_last(), services, from, j, st);
        if before.contains(sd) {
            let k = choose|k: int| 0 <= k < before.len() && before[k] == sd;
            assert(calls[k] == sd);
        }
    } else {
        let q = |x: StopTimeRow| repo.departs_within(x, stop_id@, services, from, 3600);
        let kept = repo.stop_times@.filter(q);
        crate::table::lemma_filter_items(repo.stop_times@, q);
        assert(q(st) && repo.stop_times@.contains(st));
        assert(kept.contains(st));
        let n = choose|n: int| 0 <= n < kept.len() && kept[n] == st;
        assert(within[n] == sd);
        assert(within.contains(sd));
        crate::timetable::answers_have_an_order();
        crate::order::ordered_keeps_items(within, by_departure());
        crate::order::ordered_has_the_same_items(within, by_departure());
        crate::order::ordered_is_in_order(within, by_departure());
        assert(sorted.contains(sd));
        let m = choose|m: int| 0 <= m < sorted.len() && sorted[m] == sd;
        if m < shown.len() {
            assert(shown[m] == sd);
            assert(calls[before.len() + m] == sd);
        } else {
            assert forall|i: int| 0 <= i < shown.len() implies p(#[trigger] shown[i]) by {
                assert(shown[i] == sorted[i]);
                assert(!by_departure()(sorted[m], sorted[i]));
            }
            crate::table::lemma_filter_all(shown, p);
        }
    }
}

/// Every call at the stop or at a served platform of it within the hour, on a
/// trip of a listed service, is looked at, unless twelve departures that leave
/// no later are.
pub proof fn every_departure_here_is_planned(
    service: StatusService,
    stop_id: Seq<char>,
    services: Seq<String>,
    now: LocalDateTime,
    x: int,
    t: int,
    s: int,
)
    requires
        leaves(service.repo, x, t, s, stop_id, services, now.secs_of_day()),
    ensures
        ({
            let planned = service.planned(stop_id, services, now);
            let secs = service.repo.stop_times@[x].departure_secs->0;
            ||| exists|i: int|
                0 <= i < planned.len() && is_planned_as(
                    service.repo,
                    #[trigger] planned[i],
                    x,
                    t,
                )
            ||| planned.len() == 12 && forall|i: int|
                0 <= i < planned.len() ==> (#[trigger] planned[i]).departure_secs <= secs
        }),
        service.planned(stop_id, services, now).len() <= 12,
{
    let repo = service.repo;
    let st = repo.stop_times@[x];
    let row = repo.stops@[s];
    let from = now.secs_of_day();
    let stops = service.platforms(stop_id);
    let calls = calls_of(repo, stops, services, from);
    let sorted = ordered(calls, by_departure());
    let planned = service.planned(stop_id, services, now);
    let sd = repo.departure_of(st);
    a_trip_is_its_first_row(repo.trips@, st.trip_id);
    assert(crate::timetable::trip_row(repo.trips@, st.trip_id@) == Some(repo.trips@[t]));
    assert(crate::timetable::is_listed(services, repo.trips@[t].service_id@));
    assert(repo.stop_times@.contains(st));
    assert(crate::timetable::is_served(repo.stop_times@, row.stop_id@));
    let p = |s: StopRow| repo.belongs_to(s, stop_id);
    let kept = repo.stops@.filter(p);
    let all = kept.map_values(|s: StopRow| s.as_stop());
    crate::table::lemma_filter_items(repo.stops@, p);
    assert(p(row) && repo.stops@.contains(row));
    assert(kept.contains(row));
    let n = choose|n: int| 0 <= n < kept.len() && kept[n] == row;
    assert(all[n] == row.as_stop());
    assert(all.contains(row.as_stop()));
    crate::order::ordered_has_the_same_items(all, by_name());
    assert(stops.contains(row.as_stop()));
    let j = choose|j: int| 0 <= j < stops.len() && stops[j] == row.as_stop();
    lemma_call_in(repo, stops, services, from, j, st);
    crate::timetable::answers_have_an_order();
    crate::order::ordered_keeps_items(calls, by_departure());
    crate::order::ordered_has_the_same_items(calls, by_departure());
    crate::order::ordered_is_in_order(calls, by_departure());
    if calls.contains(sd) {
        assert(sorted.contains(sd));
        let m = choose|m: int| 0 <= m < sorted.len() && sorted[m] == sd;
        if m < planned.len() {
            assert(planned[m] == sd);
            assert(is_planned_as(repo, planned[m], x, t));
        } else {
            assert forall|i: int| 0 <= i < planned.len() implies (
            #[trigger] planned[i]).departure_secs <= sd.departure_secs by {
                assert(planned[i] == sorted[i]);
                assert(!by_departure()(sorted[m], sorted[i]));
            }
        }
    } else {
        lemma_first_twelve(calls, st.departure_secs->0);
        assert forall|i: int| 0 <= i < planned.len() implies (
        #[trigger] planned[i]).departure_secs <= sd.departure_secs by {
            assert(planned[i] == sorted[i]);
        }
    }
}

/// The services that run on the date that a clock shows.
pub open spec fn services_at(service: StatusService, now: LocalDateTime) -> Seq<String> {
    let date = compact_date(now.year as int, now.month as int, now.day as int);
    service.repo.services_on(date, crate::gtfs::weekday_in(date)->0)
}

/// Whether `ms` is the instant at which a Brussels clock first shows `secs`
/// seconds after midnight of the date of `now`; a time that it never shows is
/// read as UTC.
pub open spec fn shows(ms: i64, now: LocalDateTime, secs: int) -> bool {
    let local = now.day_no() * 86_400 + secs;
    match brussels_earliest(local) {
        Some(t) => ms == (t * 1000) as i64,
        None => ms == (local * 1000) as i64,
    }
}

/// Whether `d` tells of call `x`, on trip row `t`, at a stop.
pub open spec fn tells_of(
    service: StatusService,
    d: Departure,
    x: int,
    t: int,
    stop_id: Seq<char>,
    now: LocalDateTime,
) -> bool {
    &&& d.trip_id@ == service.repo.stop_times@[x].trip_id@
    &&& d.headsign@ == service.repo.trips@[t].headsign@
    &&& shows(d.scheduled, now, service.repo.stop_times@[x].departure_secs->0 as int)
    &&& tells_what_was_seen(service, d, service.repo.stop_times@[x].stop_sequence, stop_id)
}

pub(crate) proof fn lemma_line_told(
    service: StatusService,
    st: StopStatus,
    stop_id: Seq<char>,
    services: Seq<String>,
    now: LocalDateTime,
    utc_ms: i64,
    l: int,
) -> (r: (Seq<LineStatus>, int))
    requires
        service.is_status(st, stop_id, services, now, utc_ms),
        0 <= l < st.lines@.len(),
    ensures
        service.tells_lines(r.0, stop_id, services, now, utc_ms as int / 1000),
        st.lines@ == ordered(r.0, by_line_name()),
        0 <= r.1 < r.0.len(),
        r.0[r.1] == st.lines@[l],
        service.tells_line(
            st.lines@[l],
            service.known_lines(stop_id, services, now)[r.1],
            stop_id,
            services,
            now,
            utc_ms as int / 1000,
        ),
{
    let list = choose|list: Seq<LineStatus>| #[trigger]
        service.tells_lines(list, stop_id, services, now, utc_ms as int / 1000) && st.lines@
            == ordered(list, by_line_name());
    crate::order::ordered_has_the_same_items(list, by_line_name());
    assert(st.lines@.contains(st.lines@[l]));
    assert(list.contains(st.lines@[l]));
    let i = choose|i: int| 0 <= i < list.len() && list[i] == st.lines@[l];
    let ids = service.known_lines(stop_id, services, now);
    assert(service.tells_line(list[i], ids[i], stop_id, services, now, utc_ms as int / 1000));
    (list, i)
}

pub(crate) proof fn lemma_line_count(
    service: StatusService,
    st: StopStatus,
    stop_id: Seq<char>,
    services: Seq<String>,
    now: LocalDateTime,
    utc_ms: i64,
)
    requires
        service.is_status(st, stop_id, services, now, utc_ms),
    ensures
        st.lines@.len() == service.known_lines(stop_id, services, now).len(),
{
    let list = choose|list: Seq<LineStatus>| #[trigger]
        service.tells_lines(list, stop_id, services, now, utc_ms as int / 1000) && st.lines@
            == ordered(list, by_line_name());
    crate::order::ordered_keeps_items(list, by_line_name());
}

/// Whether line row `x` is what is told of a line.
pub open spec fn is_line(repo: GtfsRepo, line: crate::domain::Line, x: int) -> bool {
    &&& is_first_route(repo.routes@, x, line.route_id@)
    &&& line.short_name@ == repo.routes@[x].short_name@
    &&& line.long_name@ == repo.routes@[x].long_name@
    &&& line.mode == crate::gtfs::mode_of(repo.routes@[x].route_type)
}

/// A line that is told of is a line of the timetable.
pub proof fn a_told_line_is_in_the_timetable(
    service: &StatusService,
    stop_id: &str,
    now: LocalDateTime,
    utc_ms: i64,
    r: Result<Option<StopStatus>, GtfsError>,
    st: StopStatus,
    l: int,
) -> (x: int)
    requires
        call_ensures(StatusService::stop_status, (service, stop_id, now, utc_ms), r),
        r == Ok::<Option<StopStatus>, GtfsError>(Some(st)),
        0 <= l < st.lines@.len(),
    ensures
        is_line(service.repo, st.lines@[l].line, x),
{
    let services = services_at(*service, now);
    let (list, i) = lemma_line_told(*service, st, stop_id@, services, now, utc_ms, l);
    lemma_line_row(*service, stop_id@, services, now, st.lines@[l], i, utc_ms as int / 1000)
}

proof fn lemma_line_row(
    service: StatusService,
    stop_id: Seq<char>,
    services: Seq<String>,
    now: LocalDateTime,
    line: LineStatus,
    i: int,
    utc_secs: int,
) -> (x: int)
    requires
        0 <= i < service.known_lines(stop_id, services, now).len(),
        service.tells_line(
            line,
            service.known_lines(stop_id, services, now)[i],
            stop_id,
            services,
            now,
            utc_secs,
        ),
    ensures
        is_line(service.repo, line.line, x),
        line.line.route_id@ == service.known_lines(stop_id, services, now)[i],
{
    let ids = service.known_lines(stop_id, services, now);
    let planned = service.planned(stop_id, services, now);
    let p = |id: Seq<char>| GtfsRepo::route_row(service.repo.routes@, id) is Some;
    crate::table::lemma_filter_items(lines_in(planned), p);
    assert(p(ids[i]));
    assert(lines_in(planned).contains(ids[i]));
    let k = crate::status::lemma_line_occurs(planned, ids[i]);
    let sd = planned[k];
    a_route_is_its_first_row(service.repo.routes@, sd.route_id);
    let row = GtfsRepo::route_row(service.repo.routes@, sd.route_id@)->0;
    let x = choose|x: int|
        is_first_route(service.repo.routes@, x, sd.route_id@)
            && #[trigger] service.repo.routes@[x] == row;
    x
}

/// Every departure that is told of a line is a call at the stop or at a platform
/// of it within the hour, on a trip of that line that runs with a service of the
/// day, with what was seen of it.
pub proof fn a_told_departure_leaves_here(
    service: &StatusService,
    stop_id: &str,
    now: LocalDateTime,
    utc_ms: i64,
    r: Result<Option<StopStatus>, GtfsError>,
    st: StopStatus,
    l: int,
    j: int,
) -> (w: (int, int, int))
    requires
        call_ensures(StatusService::stop_status, (service, stop_id, now, utc_ms), r),
        r == Ok::<Option<StopStatus>, GtfsError>(Some(st)),
        0 <= l < st.lines@.len(),
        0 <= j < st.lines@[l].departures@.len(),
    ensures
        leaves(
            service.repo,
            w.0,
            w.1,
            w.2,
            stop_id@,
            services_at(*service, now),
            now.hour * 3600 + now.minute * 60 + now.second,
        ),
        service.repo.trips@[w.1].route_id@ == st.lines@[l].line.route_id@,
        tells_of(*service, st.lines@[l].departures@[j], w.0, w.1, stop_id@, now),
{
    let services = services_at(*service, now);
    let (list, i) = lemma_line_told(*service, st, stop_id@, services, now, utc_ms, l);
    let ids = service.known_lines(stop_id@, services, now);
    let x = lemma_line_row(
        *service,
        stop_id@,
        services,
        now,
        st.lines@[l],
        i,
        utc_ms as int / 1000,
    );
    let planned = service.planned(stop_id@, services, now);
    let q = |sd: ScheduledDeparture| sd.route_id@ == ids[i];
    let kept = planned.filter(q);
    crate::table::lemma_filter_items(planned, q);
    let sd = kept[j];
    assert(st.lines@[l].departures@ == service.line_departures(ids[i], stop_id@, services, now));
    assert(st.lines@[l].departures@[j] == service.departure_at(sd, stop_id@, services, now));
    assert(q(sd) && planned.contains(sd));
    let n = choose|n: int| 0 <= n < planned.len() && planned[n] == sd;
    let w = a_planned_departure_leaves_here(*service, stop_id@, services, now, n);
    a_departure_tells_what_was_seen(*service, sd, stop_id@, services, now, w.1);
    w
}

/// Every departure that is looked at is told, with its line, where the timetable
/// has the line.
pub proof fn every_departure_of_a_known_line_is_told(
    service: &StatusService,
    stop_id: &str,
    now: LocalDateTime,
    utc_ms: i64,
    r: Result<Option<StopStatus>, GtfsError>,
    st: StopStatus,
    n: int,
    x: int,
) -> (w: (int, int))
    requires
        call_ensures(StatusService::stop_status, (service, stop_id, now, utc_ms), r),
        r == Ok::<Option<StopStatus>, GtfsError>(Some(st)),
        0 <= n < service.planned(stop_id@, services_at(*service, now), now).len(),
        is_first_route(
            service.repo.routes@,
            x,
            service.planned(stop_id@, services_at(*service, now), now)[n].route_id@,
        ),
    ensures
        0 <= w.0 < st.lines@.len(),
        is_line(service.repo, st.lines@[w.0].line, x),
        0 <= w.1 < st.lines@[w.0].departures@.len(),
        st.lines@[w.0].departures@[w.1].trip_id@ == service.planned(
            stop_id@,
            services_at(*service, now),
            now,
        )[n].trip_id@,
        shows(
            st.lines@[w.0].departures@[w.1].scheduled,
            now,
            service.planned(stop_id@, services_at(*service, now), now)[n].departure_secs as int,
        ),
{
    let services = services_at(*service, now);
    let planned = service.planned(stop_id@, services, now);
    let sd = planned[n];
    let id = sd.route_id@;
    let secs = utc_ms as int / 1000;
    let list = choose|list: Seq<LineStatus>| #[trigger]
        service.tells_lines(list, stop_id@, services, now, secs) && st.lines@ == ordered(
            list,
            by_line_name(),
        );
    let ids = service.known_lines(stop_id@, services, now);
    let p = |id: Seq<char>| GtfsRepo::route_row(service.repo.routes@, id) is Some;
    a_route_is_its_first_row(service.repo.routes@, sd.route_id);
    assert(GtfsRepo::route_row(service.repo.routes@, sd.route_id@) == Some(
        service.repo.routes@[x],
    ));
    lemma_line_listed(planned, n);
    crate::table::lemma_filter_items(lines_in(planned), p);
    assert(lines_in(planned).contains(id) && p(id));
    assert(ids.contains(id));
    let i = choose|i: int| 0 <= i < ids.len() && ids[i] == id;
    assert(service.tells_line(list[i], ids[i], stop_id@, services, now, secs));
    crate::order::ordered_has_the_same_items(list, by_line_name());
    assert(list.contains(list[i]));
    assert(st.lines@.contains(list[i]));
    let l = choose|l: int| 0 <= l < st.lines@.len() && st.lines@[l] == list[i];
    let q = |sd: ScheduledDeparture| sd.route_id@ == ids[i];
    let kept = planned.filter(q);
    crate::table::lemma_filter_items(planned, q);
    assert(planned.contains(sd) && q(sd));
    assert(kept.contains(sd));
    let j = choose|j: int| 0 <= j < kept.len() && kept[j] == sd;
    assert(list[i].departures@ == service.line_departures(ids[i], stop_id@, services, now));
    assert(st.lines@[l].departures@[j] == service.departure_at(sd, stop_id@, services, now));
    (l, j)
}

proof fn lemma_line_listed(planned: Seq<ScheduledDeparture>, n: int)
    requires
        0 <= n < planned.len(),
    ensures
        lines_in(planned).contains(planned[n].route_id@),
    decreases planned.len(),
{
    let t = planned.drop_last();
    let before = lines_in(t);
    let all = lines_in(planned);
    if n < t.len() {
        lemma_line_listed(t, n);
        assert(t[n] == planned[n]);
        let k = choose|k: int| 0 <= k < before.len() && before[k] == planned[n].route_id@;
        assert(all[k] == planned[n].route_id@);
    } else if !before.contains(planned.last().route_id@) {
        assert(all[before.len() as int] == planned[n].route_id@);
    }
}

proof fn lemma_elsewhere(
    a: StatusService,
    b: StatusService,
    i: int,
    o: Observation,
    sd: ScheduledDeparture,
    stop_id: Seq<char>,
    services: Seq<String>,
)
    requires
        b.repo == a.repo,
        0 <= i <= a.archive.observations@.len(),
        b.archive.observations@ == a.archive.observations@.insert(i, o),
        o.trip_id@ != sd.trip_id@ || o.stop_sequence != sd.stop_sequence,
        exists|j: int|
            0 <= j < a.archive.observations@.len() && (
            #[trigger] a.archive.observations@[j]).feed_ts >= o.feed_ts,
    ensures
        hit(b.observed_at(stop_id, services), sd.trip_id@, sd.stop_sequence) == hit(
            a.observed_at(stop_id, services),
            sd.trip_id@,
            sd.stop_sequence,
        ),
{
    let x = a.archive.observations@;
    let y = b.archive.observations@;
    let qa = |o: Observation| a.counts(o, stop_id, services);
    let qb = |o: Observation| b.counts(o, stop_id, services);
    let p = |o: Observation| o.trip_id@ == sd.trip_id@ && o.stop_sequence == sd.stop_sequence;
    let ta = a.archive.observation_stamps();
    let tb = b.archive.observation_stamps();
    crate::archive::newest_is_the_largest(ta);
    crate::archive::newest_is_the_largest(tb);
    let j = choose|j: int| 0 <= j < x.len() && (#[trigger] x[j]).feed_ts >= o.feed_ts;
    assert(ta[j] == x[j].feed_ts);
    let na = crate::archive::newest(ta)->0;
    let nb = crate::archive::newest(tb)->0;
    assert(na == nb) by {
        let k = choose|k: int| 0 <= k < ta.len() && ta[k] == na;
        let m = choose|m: int| 0 <= m < tb.len() && tb[m] == nb;
        assert(x[k].feed_ts == na);
        assert(y[m].feed_ts == nb);
        let k2 = if k < i {
            k
        } else {
            k + 1
        };
        assert(y[k2] == x[k]);
        assert(tb[k2] == na);
        if m == i {
            assert(y[m] == o);
        } else {
            let m2 = if m < i {
                m
            } else {
                m - 1
            };
            assert(y[m] == x[m2]);
            assert(ta[m2] == nb);
        }
    }
    assert(qa =~= qb);
    let front = x.take(i);
    let back = x.skip(i);
    let one = seq![o];
    assert(x =~= front + back);
    assert(y =~= front + one + back);
    crate::table::lemma_filter_concat(front, back, qa);
    crate::table::lemma_filter_concat(front + one, back, qa);
    crate::table::lemma_filter_concat(front, one, qa);
    let f = front.filter(qa);
    let m = one.filter(qa);
    let g = back.filter(qa);
    crate::table::lemma_filter_concat(f, g, p);
    crate::table::lemma_filter_concat(f + m, g, p);
    crate::table::lemma_filter_concat(f, m, p);
    crate::table::lemma_filter_items(one, qa);
    assert forall|k: int| 0 <= k < m.len() implies !p(#[trigger] m[k]) by {
        assert(one.contains(m[k]));
        assert(m[k] == o);
    }
    crate::table::lemma_filter_all(m, p);
    assert(f.filter(p) + m.filter(p) =~= f.filter(p));
    assert(a.observed_at(stop_id, services).filter(p) == b.observed_at(stop_id, services).filter(
        p,
    ));
}

/// What is observed of other trips, or of the trip at other places, does not
/// change what is told of a departure: one such observation more, of a feed that
/// is there already or older, leaves the departure as it is.
pub proof fn observations_elsewhere_do_not_count(
    a: StatusService,
    b: StatusService,
    i: int,
    o: Observation,
    sd: ScheduledDeparture,
    stop_id: Seq<char>,
    services: Seq<String>,
    now: LocalDateTime,
)
    requires
        b.repo == a.repo,
        b.archive.alerts@ == a.archive.alerts@,
        b.archive.alert_trips@ == a.archive.alert_trips@,
        0 <= i <= a.archive.observations@.len(),
        b.archive.observations@ == a.archive.observations@.insert(i, o),
        o.trip_id@ != sd.trip_id@ || o.stop_sequence != sd.stop_sequence,
        exists|j: int|
            0 <= j < a.archive.observations@.len() && (
            #[trigger] a.archive.observations@[j]).feed_ts >= o.feed_ts,
    ensures
        a.departure_at(sd, stop_id, services, now) == b.departure_at(sd, stop_id, services, now),
{
    lemma_elsewhere(a, b, i, o, sd, stop_id, services);
    crate::status::only_the_trips_concerned_are_cancelled(a, sd, stop_id, services, now);
    crate::status::only_the_trips_concerned_are_cancelled(b, sd, stop_id, services, now);
    assert(a.archive.alert_stamps() == b.archive.alert_stamps());
    assert forall|x: AlertTrip| cancels(a.archive, x) == cancels(b.archive, x) by {}
    assert forall|x: AlertTrip| #[trigger]
        a.cancels_at(x, stop_id) == b.cancels_at(x, stop_id) by {}
    let links = a.archive.alert_trips@;
    if a.departure_at(sd, stop_id, services, now).cancelled != b.departure_at(
        sd,
        stop_id,
        services,
        now,
    ).cancelled {
        if exists|k: int|
            0 <= k < links.len() && a.cancels_at(#[trigger] links[k], stop_id) && links[k].trip_id@
                == sd.trip_id@ {
            let k = choose|k: int|
                0 <= k < links.len() && a.cancels_at(#[trigger] links[k], stop_id)
                    && links[k].trip_id@ == sd.trip_id@;
            assert(b.cancels_at(b.archive.alert_trips@[k], stop_id));
        }
    }
}

/// Whether the data are fresh: a service runs today, and the newest observation
/// is at most `stale_after` seconds old.
pub open spec fn are_fresh(service: StatusService, services: Seq<String>, utc_secs: int) -> bool {
    services.len() > 0 && service.stale_after >= 0 && exists|k: int|
        is_latest(service.archive, k) && utc_secs - (
        #[trigger] service.archive.observations@[k]).feed_ts <= service.stale_after
}

pub(crate) proof fn lemma_fresh(service: StatusService, services: Seq<String>, utc_secs: int)
    ensures
        service.is_fresh(services, utc_secs) <==> are_fresh(service, services, utc_secs),
        forall|k: int|
            is_latest(service.archive, k) ==> service.feed_age(utc_secs) == Some(
                if utc_secs > (#[trigger] service.archive.observations@[k]).feed_ts {
                    utc_secs - service.archive.observations@[k].feed_ts
                } else {
                    0
                },
            ),
        service.archive.observations@.len() == 0 <==> service.feed_age(utc_secs) is None,
{
    let archive = service.archive;
    let ts = archive.observation_stamps();
    crate::archive::newest_is_the_largest(ts);
    assert forall|k: int| is_latest(archive, k) implies service.feed_age(utc_secs) == Some(
        if utc_secs > (#[trigger] archive.observations@[k]).feed_ts {
            utc_secs - archive.observations@[k].feed_ts
        } else {
            0
        },
    ) by {
        lemma_latest(archive, k);
    }
    if service.is_fresh(services, utc_secs) {
        let t = crate::archive::newest(ts)->0;
        let k = choose|k: int| 0 <= k < ts.len() && ts[k] == t;
        assert(archive.observations@[k].feed_ts == t);
        lemma_latest(archive, k);
    }
}

/// A line that is told of is unknown exactly where the data are not fresh: no
/// service runs today, nothing was observed, or the newest observation is older
/// than allowed.
pub proof fn a_told_line_is_unknown_without_fresh_data(
    service: &StatusService,
    stop_id: &str,
    now: LocalDateTime,
    utc_ms: i64,
    r: Result<Option<StopStatus>, GtfsError>,
    st: StopStatus,
    l: int,
)
    requires
        call_ensures(StatusService::stop_status, (service, stop_id, now, utc_ms), r),
        r == Ok::<Option<StopStatus>, GtfsError>(Some(st)),
        0 <= l < st.lines@.len(),
    ensures
        st.lines@[l].departures@.len() > 0,
        st.lines@[l].status == ServiceStatus::Unknown <==> !are_fresh(
            *service,
            services_at(*service, now),
            utc_ms as int / 1000,
        ),
{
    let services = services_at(*service, now);
    let secs = utc_ms as int / 1000;
    let (list, i) = lemma_line_told(*service, st, stop_id@, services, now, utc_ms, l);
    crate::status::every_line_told_has_a_departure(
        *service,
        list,
        stop_id@,
        services,
        now,
        secs,
        i,
    );
    lemma_fresh(*service, services, secs);
}

/// What is told of the age of the data: the seconds from the newest observation
/// to now, none where it is from the future, and the instant so many seconds ago;
/// nothing where no service runs today or nothing was observed.
pub proof fn an_answer_tells_the_age_of_the_data(
    service: &StatusService,
    stop_id: &str,
    now: LocalDateTime,
    utc_ms: i64,
    r: Result<Option<StopStatus>, GtfsError>,
    st: StopStatus,
    k: int,
)
    requires
        call_ensures(StatusService::stop_status, (service, stop_id, now, utc_ms), r),
        r == Ok::<Option<StopStatus>, GtfsError>(Some(st)),
    ensures
        services_at(*service, now).len() == 0 || service.archive.observations@.len() == 0
            ==> st.feed_age_secs is None && st.last_updated is None,
        services_at(*service, now).len() > 0 && is_latest(service.archive, k) ==> {
            let ts = service.archive.observations@[k].feed_ts;
            let secs = utc_ms as int / 1000;
            &&& st.feed_age_secs is Some && st.last_updated is Some
            &&& secs >= ts ==> st.feed_age_secs->0 == secs - ts
            &&& secs <= ts ==> st.feed_age_secs->0 == 0
            &&& st.last_updated->0 == utc_ms - st.feed_age_secs->0 * 1000
        },
{
    lemma_fresh(*service, services_at(*service, now), utc_ms as int / 1000);
}

/// Whether alert `a` stops a whole line: it is of the newest feed, its effect is
/// 1 (no service), it names the line, and no trip is linked to it.
pub open spec fn stops_line(archive: Archive, a: int, route_id: Seq<char>) -> bool {
    &&& is_latest_alert(archive, a)
    &&& archive.alerts@[a].effect == Some(1i64)
    &&& route_id.len() > 0
    &&& crate::text::pieces(archive.alerts@[a].route_ids@, ',').contains(route_id)
    &&& forall|k: int|
        0 <= k < archive.alert_trips@.len() ==> (#[trigger] archive.alert_trips@[k]).feed_ts
            != archive.alerts@[a].feed_ts || archive.alert_trips@[k].alert_id@
            != archive.alerts@[a].alert_id@
}

/// Whether alert `a` is the first that stops a line.
pub open spec fn stops_line_first(archive: Archive, a: int, route_id: Seq<char>) -> bool {
    &&& stops_line(archive, a, route_id)
    &&& forall|b: int| 0 <= b < a ==> !#[trigger] stops_line(archive, b, route_id)
}

/// Whether `message` is what an alert tells: its header, without one its
/// description, without either that the service is interrupted.
pub open spec fn is_message(a: AlertRecord, message: Seq<char>) -> bool {
    &&& a.header_fr is Some ==> message == a.header_fr->0@
    &&& a.header_fr is None && a.description_fr is Some ==> message == a.description_fr->0@
    &&& a.header_fr is None && a.description_fr is None ==> message == "Service interrompu"@
}

proof fn lemma_stops_line(service: StatusService, route_id: String)
    ensures
        forall|a: int|
            stops_line_first(service.archive, a, route_id@) ==> (
            crate::status::line_message(service.stopping_alerts(), route_id@) matches Some(m)
                && is_message(#[trigger] service.archive.alerts@[a], m)),
        crate::status::line_message(service.stopping_alerts(), route_id@) is Some ==> exists|
            a: int,
        | #[trigger]
            stops_line_first(service.archive, a, route_id@),
{
    let archive = service.archive;
    let alerts = archive.alerts@;
    let q = |a: AlertRecord| crate::status::stops_lines(archive, a);
    let p = |a: AlertRecord| crate::status::names_line(a, route_id@);
    let both = |a: AlertRecord| q(a) && p(a);
    let stopping = service.stopping_alerts();
    assert forall|a: int| 0 <= a < alerts.len() implies both(#[trigger] alerts[a]) == stops_line(
        archive,
        a,
        route_id@,
    ) by {
        lemma_latest_alert(archive, a);
        let x = alerts[a];
        if stops_line(archive, a, route_id@) {
            crate::text::lemma_pieces_nonempty(x.route_ids@, ',');
            if x.route_ids@.len() == 0 {
                assert(crate::text::pieces(x.route_ids@, ',') =~= seq![x.route_ids@]);
                let ps = crate::text::pieces(x.route_ids@, ',');
                let k = choose|k: int| 0 <= k < ps.len() && ps[k] == route_id@;
                assert(ps[k] == x.route_ids@);
            }
            assert(!crate::status::names_trips(archive, x));
        }
        if both(x) {
            assert forall|k: int| 0 <= k < archive.alert_trips@.len() implies (
            #[trigger] archive.alert_trips@[k]).feed_ts != x.feed_ts
                || archive.alert_trips@[k].alert_id@ != x.alert_id@ by {}
        }
    }
    crate::table::lemma_filter_twice(alerts, q, p);
    assert(stopping.filter(p) == alerts.filter(both)) by {
        crate::table::lemma_filter_same(alerts, |x: AlertRecord| q(x) && p(x), both);
    }
    assert forall|a: int| stops_line_first(archive, a, route_id@) implies (
    crate::status::line_message(stopping, route_id@) matches Some(m) && is_message(
        #[trigger] alerts[a],
        m,
    )) by {
        assert forall|b: int| 0 <= b < a implies !both(#[trigger] alerts[b]) by {
            assert(!stops_line(archive, b, route_id@));
        }
        crate::table::lemma_first_of_filter(alerts, both, a);
    }
    if stopping.filter(p).len() > 0 {
        let a = crate::laws::rows::lemma_first_kept(alerts, both);
        assert forall|b: int| 0 <= b < a implies !#[trigger] stops_line(
            archive,
            b,
            route_id@,
        ) by {
            assert(!both(alerts[b]));
        }
        assert(stops_line_first(archive, a, route_id@));
    }
}

/// On fresh data a line is stopped, with the message of the first alert that
/// stops it, where an alert of the newest feed does: one of effect 1 that names
/// the line and no trip. Where none does, the line is judged by its departures
/// alone.
pub proof fn only_an_alert_without_trips_stops_a_line(
    service: &StatusService,
    stop_id: &str,
    now: LocalDateTime,
    utc_ms: i64,
    r: Result<Option<StopStatus>, GtfsError>,
    st: StopStatus,
    l: int,
    a: int,
    fresh: bool,
    departures: &[Departure],
    judged: (ServiceStatus, Option<String>),
)
    requires
        call_ensures(StatusService::stop_status, (service, stop_id, now, utc_ms), r),
        r == Ok::<Option<StopStatus>, GtfsError>(Some(st)),
        0 <= l < st.lines@.len(),
        fresh == are_fresh(*service, services_at(*service, now), utc_ms as int / 1000),
        departures@ == st.lines@[l].departures@,
        call_ensures(
            crate::domain::evaluate,
            (departures, fresh, None, service.thresholds),
            judged,
        ),
    ensures
        fresh && stops_line_first(service.archive, a, st.lines@[l].line.route_id@)
            ==> st.lines@[l].status == ServiceStatus::Stopped && (
        st.lines@[l].reason matches Some(m) && is_message(service.archive.alerts@[a], m@)),
        (forall|b: int| !#[trigger] stops_line(
            service.archive,
            b,
            st.lines@[l].line.route_id@,
        )) ==> {
            &&& st.lines@[l].status == judged.0
            &&& st.lines@[l].reason is Some <==> judged.1 is Some
            &&& st.lines@[l].reason is Some ==> st.lines@[l].reason->0@ == judged.1->0@
        },
{
    let services = services_at(*service, now);
    let secs = utc_ms as int / 1000;
    a_told_line_is_unknown_without_fresh_data(service, stop_id, now, utc_ms, r, st, l);
    let (list, i) = lemma_line_told(*service, st, stop_id@, services, now, utc_ms, l);
    let x = lemma_line_row(*service, stop_id@, services, now, st.lines@[l], i, secs);
    let id = st.lines@[l].line.route_id;
    lemma_fresh(*service, services, secs);
    lemma_stops_line(*service, id);
    let stopping = service.stopping_alerts();
    let ids = service.known_lines(stop_id@, services, now);
    assert(crate::status::line_message(stopping, ids[i]) == crate::status::line_message(
        stopping,
        id@,
    ));
    if fresh && stops_line_first(service.archive, a, id@) {
        let m = crate::status::line_message(stopping, id@)->0;
        assert(is_message(service.archive.alerts@[a], m));
    }
}

proof fn lemma_lines_once(planned: Seq<ScheduledDeparture>)
    ensures
        lines_in(planned).no_duplicates(),
    decreases planned.len(),
{
    if planned.len() > 0 {
        lemma_lines_once(planned.drop_last());
    }
}

proof fn lemma_filter_once<T>(s: Seq<T>, p: spec_fn(T) -> bool)
    requires
        s.no_duplicates(),
    ensures
        s.filter(p).no_duplicates(),
    decreases s.len(),
{
    reveal(Seq::filter);
    if s.len() > 0 {
        let t = s.drop_last();
        assert(t.no_duplicates());
        lemma_filter_once(t, p);
        crate::table::lemma_filter_items(t, p);
        let f = s.filter(p);
        let g = t.filter(p);
        assert forall|i: int, j: int| 0 <= i < f.len() && 0 <= j < f.len() && i != j implies f[i]
            != f[j] by {
            if i < g.len() && j < g.len() {
                assert(f[i] == g[i] && f[j] == g[j]);
            } else {
                let k = if i < g.len() {
                    i
                } else {
                    j
                };
                if k < g.len() {
                    assert(t.contains(g[k]));
                    let m = choose|m: int| 0 <= m < t.len() && t[m] == g[k];
                    assert(s[m] == g[k]);
                    assert(s[m] != s[s.len() - 1]);
                }
            }
        }
    }
}

proof fn lemma_lines_differ(
    service: StatusService,
    list: Seq<LineStatus>,
    stop_id: Seq<char>,
    services: Seq<String>,
    now: LocalDateTime,
    secs: int,
)
    requires
        service.tells_lines(list, stop_id, services, now, secs),
    ensures
        ({
            let sorted = ordered(list, by_line_name());
            forall|i: int, j: int|
                #![trigger sorted[i], sorted[j]]
                0 <= i < j < sorted.len() ==> sorted[i].line.route_id@ != sorted[j].line.route_id@
        }),
{
    let ids = service.known_lines(stop_id, services, now);
    let planned = service.planned(stop_id, services, now);
    let p = |id: Seq<char>| GtfsRepo::route_row(service.repo.routes@, id) is Some;
    let sorted = ordered(list, by_line_name());
    lemma_lines_once(planned);
    lemma_filter_once(lines_in(planned), p);
    assert forall|i: int| 0 <= i < list.len() implies (#[trigger] list[i]).line.route_id@
        == ids[i] by {
        assert(service.tells_line(list[i], ids[i], stop_id, services, now, secs));
        lemma_line_row(service, stop_id, services, now, list[i], i, secs);
    }
    assert(list.no_duplicates()) by {
        assert forall|i: int, j: int|
            0 <= i < list.len() && 0 <= j < list.len() && i != j implies list[i] != list[j] by {
            assert(ids[i] != ids[j]);
        }
    }
    crate::order::ordered_keeps_items(list, by_line_name());
    crate::order::ordered_has_the_same_items(list, by_line_name());
    list.lemma_multiset_has_no_duplicates();
    sorted.lemma_multiset_has_no_duplicates_conv();
    assert forall|i: int, j: int|
        #![trigger sorted[i], sorted[j]]
        0 <= i < j < sorted.len() implies sorted[i].line.route_id@ != sorted[j].line.route_id@ by {
        assert(sorted.contains(sorted[i]) && sorted.contains(sorted[j]));
        assert(list.contains(sorted[i]) && list.contains(sorted[j]));
        let a = choose|a: int| 0 <= a < list.len() && list[a] == sorted[i];
        let b = choose|b: int| 0 <= b < list.len() && list[b] == sorted[j];
        assert(sorted[i] != sorted[j]);
        assert(ids[a] != ids[b]);
    }
}

/// The lines of an answer come in the order of their short names, each once; the
/// advice is that for the worst of them; the stop is the first row with its key,
/// and there is an answer exactly where the timetable has the stop.
pub proof fn an_answer_lists_each_line_once(
    service: &StatusService,
    stop_id: &str,
    now: LocalDateTime,
    utc_ms: i64,
    r: Result<Option<StopStatus>, GtfsError>,
    st: StopStatus,
    lines: &[LineStatus],
    worst: ServiceStatus,
    said: &'static str,
)
    requires
        call_ensures(StatusService::stop_status, (service, stop_id, now, utc_ms), r),
        r == Ok::<Option<StopStatus>, GtfsError>(Some(st)),
        lines@ == st.lines@,
        call_ensures(crate::state::worst_status, (lines,), worst),
        call_ensures(crate::domain::advice, (worst,), said),
    ensures
        st.advice@ == said@,
        forall|i: int, j: int|
            #![trigger st.lines@[i], st.lines@[j]]
            0 <= i < j < st.lines@.len() ==> !crate::text::text_lt(
                st.lines@[j].line.short_name@,
                st.lines@[i].line.short_name@,
            ),
        forall|i: int, j: int|
            #![trigger st.lines@[i], st.lines@[j]]
            0 <= i < j < st.lines@.len() ==> st.lines@[i].line.route_id@
                != st.lines@[j].line.route_id@,
        forall|s: int|
            is_first_stop(service.repo.stops@, s, stop_id@) ==> {
                let row = #[trigger] service.repo.stops@[s];
                &&& st.stop.stop_id@ == row.stop_id@
                &&& st.stop.name@ == row.stop_name@
                &&& st.stop.lat == row.lat
                &&& st.stop.lon == row.lon
            },
{
    let services = services_at(*service, now);
    let secs = utc_ms as int / 1000;
    let list = choose|list: Seq<LineStatus>| #[trigger]
        service.tells_lines(list, stop_id@, services, now, secs) && st.lines@ == ordered(
            list,
            by_line_name(),
        );
    crate::order::ordered_keeps_items(list, by_line_name());
    lemma_lines_differ(*service, list, stop_id@, services, now, secs);
    assert forall|i: int, j: int|
        #![trigger st.lines@[i], st.lines@[j]]
        0 <= i < j < st.lines@.len() implies !crate::text::text_lt(
        st.lines@[j].line.short_name@,
        st.lines@[i].line.short_name@,
    ) by {
        crate::status::lines_come_by_short_name(list, i, j);
    }
    assert forall|s: int| is_first_stop(service.repo.stops@, s, stop_id@) implies {
        let row = #[trigger] service.repo.stops@[s];
        &&& st.stop.stop_id@ == row.stop_id@
        &&& st.stop.name@ == row.stop_name@
        &&& st.stop.lat == row.lat
        &&& st.stop.lon == row.lon
    } by {
        a_stop_is_its_first_row(service.repo.stops@, service.repo.stops@[s].stop_id);
        assert(GtfsRepo::stop_row(service.repo.stops@, stop_id@) == Some(service.repo.stops@[s]));
    }
}

/// A stop has an answer, or the fault of a date that cannot be read, where the
/// timetable has a row with its key; otherwise there is none.
pub proof fn a_stop_has_an_answer_where_it_has_a_row(
    service: &StatusService,
    stop_id: &str,
    now: LocalDateTime,
    utc_ms: i64,
    r: Result<Option<StopStatus>, GtfsError>,
    s: int,
)
    requires
        call_ensures(StatusService::stop_status, (service, stop_id, now, utc_ms), r),
    ensures
        is_first_stop(service.repo.stops@, s, stop_id@) && 0 <= now.year <= 9999 ==> r
            is Ok && r->Ok_0 is Some,
        (forall|k: int|
            0 <= k < service.repo.stops@.len() ==> (#[trigger] service.repo.stops@[k]).stop_id@
                != stop_id@) ==> r is Ok && r->Ok_0 is None,
{
    let stops = service.repo.stops@;
    if is_first_stop(stops, s, stop_id@) {
        a_stop_is_its_first_row(stops, stops[s].stop_id);
        assert(GtfsRepo::stop_row(stops, stop_id@) == Some(stops[s]));
    }
    if forall|k: int| 0 <= k < stops.len() ==> (#[trigger] stops[k]).stop_id@ != stop_id@ {
        let p = |s: StopRow| s.stop_id@ == stop_id@;
        crate::table::lemma_filter_all(stops, p);
        assert(GtfsRepo::stop_row(stops, stop_id@) is None);
    }
}

/// The observations of a stop are those of the newest feed of trips that run with
/// a listed service and call at the stop at that place; they come with the age of
/// the newest feed, where a service is listed and something was observed.
pub proof fn a_stop_is_seen_by_the_newest_observations(
    service: &StatusService,
    stop_id: &str,
    services: &[String],
    utc_secs: i64,
    r: (Vec<Observation>, Option<i64>),
    n: int,
) -> (w: (int, int))
    requires
        call_ensures(
            StatusService::latest_rt_for_stop,
            (service, stop_id, services, utc_secs),
            r,
        ),
        0 <= n < r.0@.len(),
    ensures
        is_latest(service.archive, w.0),
        r.0@[n] == service.archive.observations@[w.0],
        0 <= w.1 < service.repo.trips@.len(),
        service.repo.trips@[w.1].trip_id@ == r.0@[n].trip_id@,
        has_entry(services@, service.repo.trips@[w.1].service_id@),
        calls_with(service.repo, r.0@[n].trip_id@, r.0@[n].stop_sequence, stop_id@),
{
    let obs = service.archive.observations@;
    let q = |o: Observation| service.counts(o, stop_id@, services@);
    crate::table::lemma_filter_items(obs, q);
    assert(r.0@ == obs.filter(q));
    let o = r.0@[n];
    assert(q(o) && obs.contains(o));
    let k = choose|k: int| 0 <= k < obs.len() && obs[k] == o;
    lemma_latest(service.archive, k);
    let t = choose|t: int|
        0 <= t < service.repo.trips@.len() && (#[trigger] service.repo.trips@[t]).trip_id@
            == o.trip_id@ && crate::timetable::is_listed(
            services@,
            service.repo.trips@[t].service_id@,
        );
    (k, t)
}

/// Every observation of the newest feed of a trip that runs with a listed service
/// and calls at the stop at that place is among those of the stop.
pub proof fn every_newest_observation_here_is_seen(
    service: &StatusService,
    stop_id: &str,
    services: &[String],
    utc_secs: i64,
    r: (Vec<Observation>, Option<i64>),
    k: int,
    t: int,
)
    requires
        call_ensures(
            StatusService::latest_rt_for_stop,
            (service, stop_id, services, utc_secs),
            r,
        ),
        is_latest(service.archive, k),
        0 <= t < service.repo.trips@.len(),
        service.repo.trips@[t].trip_id@ == service.archive.observations@[k].trip_id@,
        has_entry(services@, service.repo.trips@[t].service_id@),
        calls_with(
            service.repo,
            service.archive.observations@[k].trip_id@,
            service.archive.observations@[k].stop_sequence,
            stop_id@,
        ),
    ensures
        r.0@.contains(service.archive.observations@[k]),
        r.1 matches Some(age) && (utc_secs >= service.archive.observations@[k].feed_ts ==> age
            == utc_secs - service.archive.observations@[k].feed_ts) && (utc_secs
            <= service.archive.observations@[k].feed_ts ==> age == 0),
{
    let obs = service.archive.observations@;
    let q = |o: Observation| service.counts(o, stop_id@, services@);
    crate::table::lemma_filter_items(obs, q);
    lemma_latest(service.archive, k);
    lemma_fresh(*service, services@, utc_secs as int);
    assert(crate::timetable::is_listed(services@, service.repo.trips@[t].service_id@));
    assert(calls_there(
        service.repo,
        obs[k].trip_id@,
        obs[k].stop_sequence,
        stop_id@,
        services@,
    ));
    assert(q(obs[k]) && obs.contains(obs[k]));
}

/// The trips cancelled at a stop are those that an alert of effect 1 or 2 of the
/// newest feed is linked to and that call at the stop or at a platform of it.
pub proof fn the_alerts_of_a_stop_cancel_the_trips_that_go_by(
    service: &StatusService,
    stop_id: &str,
    r: crate::status::ActiveAlerts,
    trip: String,
)
    requires
        call_ensures(StatusService::active_alerts_for_stop, (service, stop_id), r),
    ensures
        has_entry(r.cancelled_trips@, trip@) <==> is_called_off(service.archive, trip@) && goes_by(
            service.repo,
            trip@,
            stop_id@,
        ),
{
    let sd = ScheduledDeparture {
        trip_id: trip,
        route_id: trip,
        stop_sequence: 0,
        headsign: trip,
        departure_secs: 0,
    };
    lemma_cancelled_by_link(*service, sd, stop_id@);
    let links = service.archive.alert_trips@;
    let p = |x: AlertTrip| service.cancels_at(x, stop_id@);
    let kept = links.filter(p);
    crate::table::lemma_filter_items(links, p);
    if has_entry(r.cancelled_trips@, trip@) {
        let k = choose|k: int|
            0 <= k < r.cancelled_trips@.len() && (#[trigger] r.cancelled_trips@[k])@ == trip@;
        assert(p(kept[k]) && links.contains(kept[k]));
        let i = choose|i: int| 0 <= i < links.len() && links[i] == kept[k];
        assert(service.cancels_at(links[i], stop_id@));
    }
    if exists|i: int|
        0 <= i < links.len() && service.cancels_at(#[trigger] links[i], stop_id@)
            && links[i].trip_id@ == trip@ {
        let i = choose|i: int|
            0 <= i < links.len() && service.cancels_at(#[trigger] links[i], stop_id@)
                && links[i].trip_id@ == trip@;
        assert(p(links[i]) && links.contains(links[i]));
        assert(kept.contains(links[i]));
        let k = choose|k: int| 0 <= k < kept.len() && kept[k] == links[i];
        assert(r.cancelled_trips@[k]@ == trip@);
    }
}

/// What is told of a line under the alerts of a stop is the message of the first
/// alert that stops the line, and nothing where none does.
pub proof fn the_first_alert_that_stops_a_line_is_told(
    service: &StatusService,
    stop_id: &str,
    alerts: &crate::status::ActiveAlerts,
    id: String,
    route_id: &str,
    r: Option<String>,
    a: int,
)
    requires
        call_ensures(StatusService::active_alerts_for_stop, (service, stop_id), *alerts),
        id@ == route_id@,
        call_ensures(crate::status::ActiveAlerts::message_for, (alerts, route_id), r),
    ensures
        stops_line_first(service.archive, a, route_id@) ==> (r matches Some(m) && is_message(
            service.archive.alerts@[a],
            m@,
        )),
        (forall|b: int| !#[trigger] stops_line(service.archive, b, route_id@)) ==> r is None,
{
    lemma_stops_line(*service, id);
    if stops_line_first(service.archive, a, route_id@) {
        let m = crate::status::line_message(service.stopping_alerts(), id@)->0;
        assert(is_message(service.archive.alerts@[a], m));
    }
}

/// A new service has the thresholds by default: late from 180 seconds on, reduced
/// from four departures in ten, stale after 120 seconds; a commune is degraded from
/// two trips in ten and critical from five, where five are cancelled.
pub proof fn a_new_service_has_the_thresholds_by_default(
    repo: GtfsRepo,
    archive: Archive,
    stats: Vec<crate::network::NetworkStats>,
    r: StatusService,
)
    requires
        call_ensures(StatusService::open, (repo, archive, stats), r),
    ensures
        r.repo == repo,
        r.archive == archive,
        r.stats == stats,
        r.thresholds.late_secs == 180,
        r.thresholds.reduced_cancelled_ratio.num * 10 == r.thresholds.reduced_cancelled_ratio.den
            * 4,
        r.thresholds.reduced_cancelled_ratio.den > 0,
        r.thresholds.stale_feed_secs == 120,
        r.stale_after == 120,
        r.network.degraded_ratio.num * 10 == r.network.degraded_ratio.den * 2,
        r.network.degraded_ratio.den > 0,
        r.network.critical_ratio.num * 10 == r.network.critical_ratio.den * 5,
        r.network.critical_ratio.den > 0,
        r.network.min_annulled == 5,
{
}

/// Other thresholds take the place of those that were there, and nothing else
/// changes.
pub proof fn other_thresholds_change_nothing_else(
    service: StatusService,
    thresholds: crate::domain::Thresholds,
    stale_after: i64,
    r: StatusService,
)
    requires
        call_ensures(StatusService::with_thresholds, (service, thresholds, stale_after), r),
    ensures
        r.repo == service.repo,
        r.archive == service.archive,
        r.stats == service.stats,
        r.network == service.network,
        r.thresholds == thresholds,
        r.stale_after == stale_after,
{
}

/// A time of the timetable is the first instant at which a Brussels clock shows
/// it, and the clock does show it then; one that it never shows is read as UTC.
pub proof fn a_planned_time_is_read_on_a_brussels_clock(
    now: LocalDateTime,
    secs: i64,
    r: i64,
)
    requires
        call_ensures(crate::status::day_secs_to_utc, (now, secs), r),
    ensures
        ({
            let local = crate::calendar::day_number(
                now.year as int,
                now.month as int,
                now.day as int,
            ) * 86_400 + secs;
            &&& brussels_earliest(local) matches Some(t) ==> r == t * 1000
                && crate::calendar::brussels_clock(t) == local
            &&& brussels_earliest(local) is None ==> r == local * 1000
        }),
{
    assert(r as int / 1000 * 1000 == r);
}

/// The time on a Brussels clock is the one that the clock shows at the instant, and
/// its date is the day of service.
pub proof fn now_is_what_a_brussels_clock_shows(utc_secs: i64, r: LocalDateTime, date: String)
    requires
        call_ensures(StatusService::now_brussels, (utc_secs,), r),
        call_ensures(crate::status::service_date, (r,), date),
    ensures
        crate::calendar::day_number(r.year as int, r.month as int, r.day as int) * 86_400 + r.hour
            * 3600 + r.minute * 60 + r.second == crate::calendar::brussels_clock(utc_secs as int),
        r.hour < 24,
        r.minute < 60,
        r.second < 60,
        date@ == compact_date(r.year as int, r.month as int, r.day as int),
{
}

/// In a keyed archive what the newest feed says of a trip at a place is one
/// observation: it alone tells what is observed there.
pub proof fn a_keyed_archive_sees_a_place_once(
    archive: Archive,
    k: int,
    trip_id: Seq<char>,
    stop_sequence: i64,
)
    requires
        archive.wf(),
        sees(archive, k, trip_id, stop_sequence),
    ensures
        alone_sees(archive, k, trip_id, stop_sequence),
{
    let obs = archive.observations@;
    assert forall|j: int| #[trigger] sees(archive, j, trip_id, stop_sequence) implies j == k by {
        assert(obs[j].feed_ts <= obs[k].feed_ts && obs[k].feed_ts <= obs[j].feed_ts);
        if j != k {
            assert(!crate::archive::same_observation()(obs[j], obs[k]));
        }
    }
}

/// A line lists its departures by the time for which they are planned.
pub proof fn a_told_line_lists_its_departures_by_time(
    service: &StatusService,
    stop_id: &str,
    now: LocalDateTime,
    utc_ms: i64,
    r: Result<Option<StopStatus>, GtfsError>,
    st: StopStatus,
    l: int,
    i: int,
    j: int,
) -> (w: ((int, int, int), (int, int, int)))
    requires
        call_ensures(StatusService::stop_status, (service, stop_id, now, utc_ms), r),
        r == Ok::<Option<StopStatus>, GtfsError>(Some(st)),
        0 <= l < st.lines@.len(),
        0 <= i < j < st.lines@[l].departures@.len(),
    ensures
        leaves(
            service.repo,
            w.0.0,
            w.0.1,
            w.0.2,
            stop_id@,
            services_at(*service, now),
            now.hour * 3600 + now.minute * 60 + now.second,
        ),
        leaves(
            service.repo,
            w.1.0,
            w.1.1,
            w.1.2,
            stop_id@,
            services_at(*service, now),
            now.hour * 3600 + now.minute * 60 + now.second,
        ),
        tells_of(*service, st.lines@[l].departures@[i], w.0.0, w.0.1, stop_id@, now),
        tells_of(*service, st.lines@[l].departures@[j], w.1.0, w.1.1, stop_id@, now),
        service.repo.stop_times@[w.0.0].departure_secs->0
            <= service.repo.stop_times@[w.1.0].departure_secs->0,
{
    let services = services_at(*service, now);
    let (list, m) = lemma_line_told(*service, st, stop_id@, services, now, utc_ms, l);
    let ids = service.known_lines(stop_id@, services, now);
    let planned = service.planned(stop_id@, services, now);
    let calls = calls_of(
        service.repo,
        service.platforms(stop_id@),
        services,
        now.secs_of_day(),
    );
    let sorted = ordered(calls, by_departure());
    let q = |sd: ScheduledDeparture| sd.route_id@ == ids[m];
    let kept = planned.filter(q);
    assert(st.lines@[l].departures@ == service.line_departures(ids[m], stop_id@, services, now));
    assert(st.lines@[l].departures@[i] == service.departure_at(kept[i], stop_id@, services, now));
    assert(st.lines@[l].departures@[j] == service.departure_at(kept[j], stop_id@, services, now));
    crate::timetable::answers_have_an_order();
    crate::order::ordered_keeps_items(calls, by_departure());
    crate::order::ordered_is_in_order(calls, by_departure());
    assert forall|a: int, b: int| 0 <= a < b < planned.len() implies (
    #[trigger] planned[a]).departure_secs <= (#[trigger] planned[b]).departure_secs by {
        assert(planned[a] == sorted[a] && planned[b] == sorted[b]);
        assert(!by_departure()(sorted[b], sorted[a]));
    }
    let (a, b) = lemma_filter_places(planned, q, i, j);
    let x = a_planned_departure_leaves_here(*service, stop_id@, services, now, a);
    let y = a_planned_departure_leaves_here(*service, stop_id@, services, now, b);
    a_departure_tells_what_was_seen(*service, kept[i], stop_id@, services, now, x.1);
    a_departure_tells_what_was_seen(*service, kept[j], stop_id@, services, now, y.1);
    (x, y)
}

proof fn lemma_filter_places<T>(s: Seq<T>, p: spec_fn(T) -> bool, i: int, j: int) -> (w: (int, int))
    requires
        0 <= i < j < s.filter(p).len(),
    ensures
        0 <= w.0 < w.1 < s.len(),
        s[w.0] == s.filter(p)[i],
        s[w.1] == s.filter(p)[j],
    decreases s.len(),
{
    reveal(Seq::filter);
    let t = s.drop_last();
    let g = t.filter(p);
    if j < g.len() {
        let w = lemma_filter_places(t, p, i, j);
        assert(t[w.0] == s[w.0] && t[w.1] == s[w.1]);
        w
    } else {
        crate::table::lemma_filter_items(t, p);
        assert(s.filter(p)[i] == g[i]);
        assert(t.contains(g[i]));
        let a = choose|a: int| 0 <= a < t.len() && t[a] == g[i];
        assert(s[a] == g[i]);
        (a, s.len() - 1)
    }
}

/// The services of the day are those of its weekday.
pub proof fn the_services_of_the_day_go_by_its_weekday(
    service: &StatusService,
    stop_id: &str,
    now: LocalDateTime,
    utc_ms: i64,
    r: Result<Option<StopStatus>, GtfsError>,
    s: int,
)
    requires
        call_ensures(StatusService::stop_status, (service, stop_id, now, utc_ms), r),
        is_first_stop(service.repo.stops@, s, stop_id@),
        0 <= now.year <= 9999,
    ensures
        services_at(*service, now) == service.repo.services_on(
            compact_date(now.year as int, now.month as int, now.day as int),
            weekday(now.year as int, now.month as int, now.day as int),
        ),
{
    a_stop_is_its_first_row(service.repo.stops@, service.repo.stops@[s].stop_id);
    assert(GtfsRepo::stop_row(service.repo.stops@, stop_id@) == Some(service.repo.stops@[s]));
}

/// An answer tells how the network fares around its stop.
pub proof fn an_answer_tells_how_the_network_fares(
    service: &StatusService,
    stop_id: &str,
    now: LocalDateTime,
    utc_ms: i64,
    r: Result<Option<StopStatus>, GtfsError>,
    st: StopStatus,
    s: int,
    row: &StopRow,
    around: Option<crate::domain::NetworkContext>,
)
    requires
        call_ensures(StatusService::stop_status, (service, stop_id, now, utc_ms), r),
        r == Ok::<Option<StopStatus>, GtfsError>(Some(st)),
        is_first_stop(service.repo.stops@, s, stop_id@),
        *row == service.repo.stops@[s],
        call_ensures(StatusService::network_context, (service, row), around),
    ensures
        st.network is Some <==> around is Some,
        st.network is Some ==> {
            let (a, b) = (st.network->0, around->0);
            &&& a.commune@ == b.commune@
            &&& a.status@ == b.status@
            &&& a.status_label@ == b.status_label@
            &&& a.cancelled_ratio == b.cancelled_ratio
            &&& a.trips_cancelled == b.trips_cancelled
            &&& a.trips_scheduled == b.trips_scheduled
        },
{
    a_stop_is_its_first_row(service.repo.stops@, service.repo.stops@[s].stop_id);
    assert(GtfsRepo::stop_row(service.repo.stops@, stop_id@) == Some(service.repo.stops@[s]));
}

} // verus!
