//! How many trips serve each commune on a day, and how many of them do not run.
//!
//! The timetable says which trips run with the services of the day and where
//! they call; the archive says which of them are cancelled, by an alert or by a
//! stop that is skipped.

use crate::archive::{newest, AlertTrip, Archive, Observation};
use crate::index::{a_place_is_the_first, first_place, TextIndex};
use crate::loader::{StopRow, StopTimeRow, TripRow};
use crate::network::{
    calls_in, cancelled_in, commune_of, counts_one, is_counted, trips_in, Call, NetworkService,
    NetworkStats,
};
use crate::realtime::SKIPPED;
use crate::status::{cancelled_trips, cancels};
use crate::timetable::{is_listed, trip_row, GtfsRepo};
use vstd::prelude::*;

verus! {

/// Whether a trip runs with one of the services.
pub open spec fn runs_with(repo: GtfsRepo, services: Seq<String>, trip_id: Seq<char>) -> bool {
    trip_row(repo.trips@, trip_id) matches Some(t) && is_listed(services, t.service_id@)
}

/// Whether a call is at a stop of the commune.
pub open spec fn is_in(repo: GtfsRepo, st: StopTimeRow, commune: Seq<char>) -> bool {
    GtfsRepo::stop_row(repo.stops@, st.stop_id@) matches Some(s) && commune_of(s) == Some(commune)
}

/// Whether a trip that runs with one of the services calls in the commune.
pub open spec fn serves(
    repo: GtfsRepo,
    services: Seq<String>,
    trip_id: Seq<char>,
    commune: Seq<char>,
) -> bool {
    &&& runs_with(repo, services, trip_id)
    &&& exists|i: int|
        0 <= i < repo.stop_times@.len() && (#[trigger] repo.stop_times@[i]).trip_id@ == trip_id
            && is_in(repo, repo.stop_times@[i], commune)
}

/// Whether a link of the newest alert feed cancels a trip.
pub open spec fn is_cancelled_by_alert(archive: Archive, trip_id: Seq<char>) -> bool {
    exists|i: int|
        0 <= i < archive.alert_trips@.len() && (#[trigger] archive.alert_trips@[i]).trip_id@
            == trip_id && cancels(archive, archive.alert_trips@[i])
}

/// Whether an observation of the newest feed says that a trip skips a stop.
pub open spec fn skips_a_stop(archive: Archive, trip_id: Seq<char>) -> bool {
    exists|i: int|
        0 <= i < archive.observations@.len() && (#[trigger] archive.observations@[i]).trip_id@
            == trip_id && is_skip(archive, archive.observations@[i])
}

/// Whether an observation is of the newest feed and of a skipped stop.
pub open spec fn is_skip(archive: Archive, o: Observation) -> bool {
    newest(archive.observation_stamps()) == Some(o.feed_ts) && o.schedule_relationship == SKIPPED
}

/// Whether a trip is cancelled: by an alert, or by a stop that is skipped.
pub open spec fn is_cancelled(archive: Archive, trip_id: Seq<char>) -> bool {
    is_cancelled_by_alert(archive, trip_id) || skips_a_stop(archive, trip_id)
}

/// The trips that serve a commune.
pub open spec fn trips_of_day(repo: GtfsRepo, services: Seq<String>, commune: Seq<char>) -> Set<
    Seq<char>,
> {
    Set::new(|trip_id: Seq<char>| serves(repo, services, trip_id, commune))
}

/// The cancelled trips that were to serve a commune.
pub open spec fn cancelled_of_day(
    repo: GtfsRepo,
    archive: Archive,
    services: Seq<String>,
    commune: Seq<char>,
) -> Set<Seq<char>> {
    Set::new(
        |trip_id: Seq<char>|
            serves(repo, services, trip_id, commune) && is_cancelled(archive, trip_id),
    )
}

/// Whether a row counts the trips that serve its commune, at least one, and the
/// cancelled ones.
pub open spec fn counts_commune(
    s: NetworkStats,
    repo: GtfsRepo,
    archive: Archive,
    services: Seq<String>,
) -> bool {
    &&& s.trips_scheduled == trips_of_day(repo, services, s.commune@).len()
    &&& s.trips_cancelled == cancelled_of_day(repo, archive, services, s.commune@).len()
    &&& s.trips_scheduled > 0
}

/// Whether `stats` counts the trips of a day: each commune that a trip serves
/// has one row, and no other commune has any.
pub open spec fn counts_day(
    stats: Seq<NetworkStats>,
    repo: GtfsRepo,
    archive: Archive,
    services: Seq<String>,
) -> bool {
    &&& forall|i: int, j: int|
        0 <= i < j < stats.len() ==> (#[trigger] stats[i]).commune@ != (
        #[trigger] stats[j]).commune@
    &&& forall|i: int|
        0 <= i < stats.len() ==> counts_commune(#[trigger] stats[i], repo, archive, services)
    &&& forall|trip_id: Seq<char>, commune: Seq<char>| #[trigger]
        serves(repo, services, trip_id, commune) ==> is_counted(stats, commune)
}

/// The keys of the trips, in their order.
pub open spec fn trip_keys(trips: Seq<TripRow>) -> Seq<Seq<char>> {
    trips.map_values(|t: TripRow| t.trip_id@)
}

/// The keys of the stops, in their order.
pub open spec fn stop_keys(stops: Seq<StopRow>) -> Seq<Seq<char>> {
    stops.map_values(|s: StopRow| s.stop_id@)
}

/// Whether a call counts: its trip runs, and its stop is known.
spec fn is_call(repo: GtfsRepo, services: Seq<String>, st: StopTimeRow) -> bool {
    &&& first_place(trip_keys(repo.trips@), st.trip_id@) matches Some(k) && is_listed(
        services,
        repo.trips@[k as int].service_id@,
    )
    &&& first_place(stop_keys(repo.stops@), st.stop_id@) is Some
}

/// The call, by the place of its stop and that of its trip.
spec fn call_of(repo: GtfsRepo, st: StopTimeRow) -> Call {
    Call {
        stop: first_place(stop_keys(repo.stops@), st.stop_id@)->0 as usize,
        trip: first_place(trip_keys(repo.trips@), st.trip_id@)->0 as u64,
    }
}

proof fn lemma_trip_row(trips: Seq<TripRow>, trip_id: String)
    ensures
        match first_place(trip_keys(trips), trip_id@) {
            Some(k) => k < trips.len() && trips[k as int].trip_id@ == trip_id@ && trip_row(
                trips,
                trip_id@,
            ) == Some(trips[k as int]),
            None => trip_row(trips, trip_id@) is None,
        },
{
    let keys = trip_keys(trips);
    let p = |t: TripRow| t.trip_id@ == trip_id@;
    a_place_is_the_first(keys, trip_id@);
    match first_place(keys, trip_id@) {
        Some(k) => {
            assert forall|j: int| 0 <= j < k implies !p(#[trigger] trips[j]) by {
                assert(keys[j] != trip_id@);
            }
            assert(keys[k as int] == trip_id@);
            crate::table::lemma_first_of_filter(trips, p, k as int);
        },
        None => {
            crate::table::lemma_filter_items(trips, p);
            if trips.filter(p).len() > 0 {
                let t = trips.filter(p)[0];
                assert(p(t) && trips.contains(t));
                let j = choose|j: int| 0 <= j < trips.len() && trips[j] == t;
                assert(keys[j] == trip_id@);
                assert(keys.contains(trip_id@));
            }
        },
    }
}

proof fn lemma_stop_row(stops: Seq<StopRow>, stop_id: String)
    ensures
        match first_place(stop_keys(stops), stop_id@) {
            Some(k) => k < stops.len() && GtfsRepo::stop_row(stops, stop_id@) == Some(
                stops[k as int],
            ),
            None => GtfsRepo::stop_row(stops, stop_id@) is None,
        },
{
    let keys = stop_keys(stops);
    let p = |s: StopRow| s.stop_id@ == stop_id@;
    a_place_is_the_first(keys, stop_id@);
    match first_place(keys, stop_id@) {
        Some(k) => {
            assert forall|j: int| 0 <= j < k implies !p(#[trigger] stops[j]) by {
                assert(keys[j] != stop_id@);
            }
            assert(keys[k as int] == stop_id@);
            crate::table::lemma_first_of_filter(stops, p, k as int);
        },
        None => {
            crate::table::lemma_filter_items(stops, p);
            if stops.filter(p).len() > 0 {
                let s = stops.filter(p)[0];
                assert(p(s) && stops.contains(s));
                let j = choose|j: int| 0 <= j < stops.len() && stops[j] == s;
                assert(keys[j] == stop_id@);
                assert(keys.contains(stop_id@));
            }
        },
    }
}

proof fn lemma_is_listed(list: &Vec<String>, text: Seq<char>)
    ensures
        is_listed(list@, text) <==> first_place(list.deep_view(), text) is Some,
{
    a_place_is_the_first(list.deep_view(), text);
    if is_listed(list@, text) {
        let i = choose|i: int| 0 <= i < list@.len() && (#[trigger] list@[i])@ == text;
        assert(list.deep_view()[i] == text);
    }
    if list.deep_view().contains(text) {
        let i = choose|i: int| 0 <= i < list.deep_view().len() && list.deep_view()[i] == text;
        assert(list@[i]@ == text);
    }
}

fn index_trips(trips: &[TripRow]) -> (r: TextIndex)
    ensures
        r.wf(),
        r.texts() == trip_keys(trips@),
{
    let mut keys: Vec<String> = Vec::new();
    let mut i: usize = 0;
    while i < trips.len()
        invariant
            0 <= i <= trips@.len(),
            keys@.len() == i,
            forall|k: int| 0 <= k < i ==> (#[trigger] keys@[k])@ == trips@[k].trip_id@,
        decreases trips@.len() - i,
    {
        keys.push(trips[i].trip_id.clone());
        i = i + 1;
    }
    assert(keys.deep_view() =~= trip_keys(trips@));
    TextIndex::new(keys)
}

fn index_stops(stops: &[StopRow]) -> (r: TextIndex)
    ensures
        r.wf(),
        r.texts() == stop_keys(stops@),
{
    let mut keys: Vec<String> = Vec::new();
    let mut i: usize = 0;
    while i < stops.len()
        invariant
            0 <= i <= stops@.len(),
            keys@.len() == i,
            forall|k: int| 0 <= k < i ==> (#[trigger] keys@[k])@ == stops@[k].stop_id@,
        decreases stops@.len() - i,
    {
        keys.push(stops[i].stop_id.clone());
        i = i + 1;
    }
    assert(keys.deep_view() =~= stop_keys(stops@));
    TextIndex::new(keys)
}

/// A list of texts that can be searched by text.
fn index_list(list: &[String]) -> (r: TextIndex)
    ensures
        r.wf(),
        forall|text: Seq<char>|
            is_listed(list@, text) <==> #[trigger] first_place(r.texts(), text) is Some,
{
    let mut keys: Vec<String> = Vec::new();
    let mut i: usize = 0;
    while i < list.len()
        invariant
            0 <= i <= list@.len(),
            keys@ == list@.take(i as int),
        decreases list@.len() - i,
    {
        keys.push(list[i].clone());
        assert(keys@ =~= list@.take(i + 1));
        i = i + 1;
    }
    assert(keys@ =~= list@);
    proof {
        assert forall|text: Seq<char>|
            is_listed(list@, text) <==> #[trigger] first_place(keys.deep_view(), text) is Some by {
            lemma_is_listed(&keys, text);
        }
    }
    TextIndex::new(keys)
}

/// Which trips run with one of the services.
fn running(trips: &[TripRow], services: &[String]) -> (r: Vec<bool>)
    ensures
        r@.len() == trips@.len(),
        forall|k: int|
            0 <= k < r@.len() ==> #[trigger] r@[k] == is_listed(services@, trips@[k].service_id@),
{
    let listed = index_list(services);
    let mut out: Vec<bool> = Vec::new();
    let mut i: usize = 0;
    while i < trips.len()
        invariant
            0 <= i <= trips@.len(),
            listed.wf(),
            forall|text: Seq<char>|
                is_listed(services@, text) <==> #[trigger] first_place(
                    listed.texts(),
                    text,
                ) is Some,
            out@.len() == i,
            forall|k: int|
                0 <= k < i ==> #[trigger] out@[k] == is_listed(
                    services@,
                    trips@[k].service_id@,
                ),
        decreases trips@.len() - i,
    {
        out.push(listed.find(&trips[i].service_id).is_some());
        i = i + 1;
    }
    out
}

/// The calls of the trips that run, at stops that are known.
fn calls_of_day(repo: &GtfsRepo, services: &[String]) -> (r: Vec<Call>)
    ensures
        r@ == repo.stop_times@.filter(|st: StopTimeRow| is_call(*repo, services@, st)).map_values(
            |st: StopTimeRow| call_of(*repo, st),
        ),
{
    let ghost p = |st: StopTimeRow| is_call(*repo, services@, st);
    let ghost f = |st: StopTimeRow| call_of(*repo, st);
    let trips = index_trips(&repo.trips);
    let stops = index_stops(&repo.stops);
    let runs = running(&repo.trips, services);
    let mut out: Vec<Call> = Vec::new();
    let mut i: usize = 0;
    proof {
        reveal(Seq::filter);
        assert(repo.stop_times@.take(0) =~= Seq::<StopTimeRow>::empty());
        assert(out@ =~= repo.stop_times@.take(0).filter(p).map_values(f));
    }
    while i < repo.stop_times.len()
        invariant
            0 <= i <= repo.stop_times@.len(),
            p == (|st: StopTimeRow| is_call(*repo, services@, st)),
            f == (|st: StopTimeRow| call_of(*repo, st)),
            trips.wf(),
            trips.texts() == trip_keys(repo.trips@),
            stops.wf(),
            stops.texts() == stop_keys(repo.stops@),
            runs@.len() == repo.trips@.len(),
            forall|k: int|
                0 <= k < runs@.len() ==> #[trigger] runs@[k] == is_listed(
                    services@,
                    repo.trips@[k].service_id@,
                ),
            out@ == repo.stop_times@.take(i as int).filter(p).map_values(f),
        decreases repo.stop_times@.len() - i,
    {
        let st = &repo.stop_times[i];
        proof {
            reveal(Seq::filter);
            assert(repo.stop_times@.take(i + 1).drop_last() =~= repo.stop_times@.take(i as int));
            assert(repo.stop_times@.take(i + 1).last() == *st);
            lemma_trip_row(repo.trips@, st.trip_id);
        }
        if let Some(trip) = trips.find(&st.trip_id) {
            if runs[trip] {
                if let Some(stop) = stops.find(&st.stop_id) {
                    out.push(Call { stop, trip: trip as u64 });
                }
            }
        }
        assert(out@ =~= repo.stop_times@.take(i + 1).filter(p).map_values(f));
        i = i + 1;
    }
    assert(repo.stop_times@.take(repo.stop_times@.len() as int) =~= repo.stop_times@);
    out
}

/// The trips that are cancelled, by an alert or by a stop that is skipped.
fn cancelled_keys(archive: &Archive) -> (r: Vec<String>)
    ensures
        forall|trip_id: Seq<char>| #[trigger]
            is_listed(r@, trip_id) <==> is_cancelled(*archive, trip_id),
{
    let mut out = cancelled_trips(archive);
    let ghost by_alert = out@;
    let current = archive.newest_observation();
    let mut i: usize = 0;
    while i < archive.observations.len()
        invariant
            0 <= i <= archive.observations@.len(),
            current == newest(archive.observation_stamps()),
            by_alert.len() <= out@.len(),
            out@.take(by_alert.len() as int) == by_alert,
            forall|k: int|
                by_alert.len() <= k < out@.len() ==> skips_a_stop(*archive, (#[trigger] out@[k])@),
            forall|k: int|
                0 <= k < i && is_skip(*archive, #[trigger] archive.observations@[k]) ==> is_listed(
                    out@,
                    archive.observations@[k].trip_id@,
                ),
        decreases archive.observations@.len() - i,
    {
        let o = &archive.observations[i];
        let newest_feed = match current {
            Some(ts) => ts == o.feed_ts,
            None => false,
        };
        if newest_feed && o.schedule_relationship == SKIPPED {
            let ghost before = out@;
            out.push(o.trip_id.clone());
            proof {
                assert(is_skip(*archive, archive.observations@[i as int]));
                assert(out@[before.len() as int]@ == o.trip_id@);
                assert(out@.take(by_alert.len() as int) =~= before.take(by_alert.len() as int));
                assert forall|k: int|
                    0 <= k < i && is_skip(
                        *archive,
                        #[trigger] archive.observations@[k],
                    ) implies is_listed(out@, archive.observations@[k].trip_id@) by {
                    let text = archive.observations@[k].trip_id@;
                    let j = choose|j: int| 0 <= j < before.len() && (#[trigger] before[j])@ == text;
                    assert(out@[j] == before[j]);
                }
            }
        }
        i = i + 1;
    }
    proof {
        let p = |x: AlertTrip| cancels(*archive, x);
        let links = archive.alert_trips@;
        crate::table::lemma_filter_items(links, p);
        assert forall|trip_id: Seq<char>| #[trigger]
            is_listed(out@, trip_id) <==> is_cancelled(*archive, trip_id) by {
            if is_listed(out@, trip_id) {
                let k = choose|k: int| 0 <= k < out@.len() && (#[trigger] out@[k])@ == trip_id;
                if k < by_alert.len() {
                    assert(out@.take(by_alert.len() as int)[k] == out@[k]);
                    let link = links.filter(p)[k];
                    assert(p(link) && links.contains(link));
                    let j = choose|j: int| 0 <= j < links.len() && links[j] == link;
                    assert(links[j].trip_id@ == trip_id);
                }
            }
            if is_cancelled_by_alert(*archive, trip_id) {
                let j = choose|j: int|
                    0 <= j < links.len() && (#[trigger] links[j]).trip_id@ == trip_id && cancels(
                        *archive,
                        links[j],
                    );
                assert(links.contains(links[j]) && p(links[j]));
                assert(links.filter(p).contains(links[j]));
                let k = choose|k: int|
                    0 <= k < links.filter(p).len() && links.filter(p)[k] == links[j];
                assert(by_alert[k]@ == trip_id);
                assert(out@.take(by_alert.len() as int)[k] == out@[k]);
            }
            if skips_a_stop(*archive, trip_id) {
                let k = choose|k: int|
                    0 <= k < archive.observations@.len() && (
                    #[trigger] archive.observations@[k]).trip_id@ == trip_id && is_skip(
                        *archive,
                        archive.observations@[k],
                    );
                assert(is_listed(out@, archive.observations@[k].trip_id@));
            }
        }
    }
    out
}

/// The places of the trips that are cancelled.
fn cancelled_places(trips: &[TripRow], archive: &Archive) -> (r: Vec<u64>)
    ensures
        forall|n: u64| #[trigger]
            r@.contains(n) <==> n < trips@.len() && is_cancelled(
                *archive,
                trips@[n as int].trip_id@,
            ),
{
    let keys = cancelled_keys(archive);
    let listed = index_list(&keys);
    let mut out: Vec<u64> = Vec::new();
    let mut i: usize = 0;
    while i < trips.len()
        invariant
            0 <= i <= trips@.len(),
            listed.wf(),
            forall|text: Seq<char>|
                is_listed(keys@, text) <==> #[trigger] first_place(listed.texts(), text) is Some,
            forall|trip_id: Seq<char>| #[trigger]
                is_listed(keys@, trip_id) <==> is_cancelled(*archive, trip_id),
            forall|n: u64| #[trigger]
                out@.contains(n) <==> n < i && is_cancelled(*archive, trips@[n as int].trip_id@),
        decreases trips@.len() - i,
    {
        let ghost before = out@;
        let found = listed.find(&trips[i].trip_id).is_some();
        assert(found == is_listed(keys@, trips@[i as int].trip_id@));
        if found {
            out.push(i as u64);
        }
        assert forall|n: u64| #[trigger]
            out@.contains(n) <==> n < i + 1 && is_cancelled(
            *archive,
            trips@[n as int].trip_id@,
        ) by {
            if before.contains(n) {
                let k = choose|k: int| 0 <= k < before.len() && before[k] == n;
                assert(out@[k] == n);
            }
            if out@.contains(n) && n != i {
                let k = choose|k: int| 0 <= k < out@.len() && out@[k] == n;
                assert(before[k] == n);
            }
            if found && n == i {
                assert(out@[before.len() as int] == n);
            }
        }
        i = i + 1;
    }
    out
}

/// The trip at a place.
spec fn key_at(repo: GtfsRepo) -> spec_fn(u64) -> Seq<char> {
    |n: u64| repo.trips@[n as int].trip_id@
}

/// A number calls in a commune where it is the place of a trip that serves it.
proof fn lemma_calls_in(
    repo: GtfsRepo,
    services: Seq<String>,
    calls: Seq<Call>,
    commune: Seq<char>,
    n: u64,
)
    requires
        repo.trips@.len() <= u64::MAX,
        repo.stops@.len() <= usize::MAX,
        calls == repo.stop_times@.filter(|st: StopTimeRow| is_call(repo, services, st)).map_values(
            |st: StopTimeRow| call_of(repo, st),
        ),
    ensures
        calls_in(repo.stops@, calls, n, commune) <==> n < repo.trips@.len() && first_place(
            trip_keys(repo.trips@),
            repo.trips@[n as int].trip_id@,
        ) == Some(n as nat) && serves(repo, services, repo.trips@[n as int].trip_id@, commune),
{
    let p = |st: StopTimeRow| is_call(repo, services, st);
    let rows = repo.stop_times@;
    let kept = rows.filter(p);
    crate::table::lemma_filter_items(rows, p);
    if calls_in(repo.stops@, calls, n, commune) {
        let i = choose|i: int|
            0 <= i < calls.len() && (#[trigger] calls[i]).trip == n && commune_of(
                repo.stops@[calls[i].stop as int],
            ) == Some(commune);
        let st = kept[i];
        assert(p(st) && rows.contains(st));
        lemma_trip_row(repo.trips@, st.trip_id);
        lemma_stop_row(repo.stops@, st.stop_id);
        let j = choose|j: int| 0 <= j < rows.len() && rows[j] == st;
        assert(calls[i] == call_of(repo, st));
        assert(rows[j].trip_id@ == repo.trips@[n as int].trip_id@ && is_in(repo, rows[j], commune));
    }
    if n < repo.trips@.len() {
        let trip_id = repo.trips@[n as int].trip_id@;
        if first_place(trip_keys(repo.trips@), trip_id) == Some(n as nat) && serves(
            repo,
            services,
            trip_id,
            commune,
        ) {
            let j = choose|j: int|
                0 <= j < rows.len() && (#[trigger] rows[j]).trip_id@ == trip_id && is_in(
                    repo,
                    rows[j],
                    commune,
                );
            let st = rows[j];
            lemma_trip_row(repo.trips@, repo.trips@[n as int].trip_id);
            lemma_stop_row(repo.stops@, st.stop_id);
            assert(p(st) && rows.contains(st));
            assert(kept.contains(st));
            let i = choose|i: int| 0 <= i < kept.len() && kept[i] == st;
            assert(calls[i] == call_of(repo, st));
            assert(calls[i].trip == n);
        }
    }
}

/// A trip that serves a commune has a place.
proof fn lemma_serving_trip(
    repo: GtfsRepo,
    services: Seq<String>,
    trip_id: Seq<char>,
    commune: Seq<char>,
) -> (n: u64)
    requires
        repo.trips@.len() <= u64::MAX,
        serves(repo, services, trip_id, commune),
    ensures
        n < repo.trips@.len(),
        repo.trips@[n as int].trip_id@ == trip_id,
        first_place(trip_keys(repo.trips@), trip_id) == Some(n as nat),
{
    let i = choose|i: int|
        0 <= i < repo.stop_times@.len() && (#[trigger] repo.stop_times@[i]).trip_id@ == trip_id
            && is_in(repo, repo.stop_times@[i], commune);
    lemma_trip_row(repo.trips@, repo.stop_times@[i].trip_id);
    first_place(trip_keys(repo.trips@), trip_id)->0 as u64
}

/// Counting places counts trips.
proof fn lemma_same_counts(
    repo: GtfsRepo,
    archive: Archive,
    services: Seq<String>,
    calls: Seq<Call>,
    cancelled: Seq<u64>,
    commune: Seq<char>,
)
    requires
        repo.trips@.len() <= u64::MAX,
        repo.stops@.len() <= usize::MAX,
        calls == repo.stop_times@.filter(|st: StopTimeRow| is_call(repo, services, st)).map_values(
            |st: StopTimeRow| call_of(repo, st),
        ),
        forall|n: u64| #[trigger]
            cancelled.contains(n) <==> n < repo.trips@.len() && is_cancelled(
                archive,
                repo.trips@[n as int].trip_id@,
            ),
    ensures
        trips_in(repo.stops@, calls, commune).len() == trips_of_day(
            repo,
            services,
            commune,
        ).len(),
        trips_of_day(repo, services, commune).finite(),
        cancelled_in(repo.stops@, calls, cancelled, commune).len() == cancelled_of_day(
            repo,
            archive,
            services,
            commune,
        ).len(),
{
    let f = key_at(repo);
    let numbers = trips_in(repo.stops@, calls, commune);
    let trips = trips_of_day(repo, services, commune);
    let gone = cancelled_in(repo.stops@, calls, cancelled, commune);
    let lost = cancelled_of_day(repo, archive, services, commune);
    crate::network::lemma_count_bounds(repo.stops@, calls, cancelled, commune);
    assert forall|n: u64| #[trigger] numbers.contains(n) implies {
        &&& trips.contains(f(n))
        &&& first_place(trip_keys(repo.trips@), f(n)) == Some(n as nat)
        &&& gone.contains(n) <==> lost.contains(f(n))
    } by {
        lemma_calls_in(repo, services, calls, commune, n);
    }
    assert forall|t: Seq<char>| #[trigger] trips.contains(t) implies exists|n: u64|
        numbers.contains(n) && f(n) == t by {
        let n = lemma_serving_trip(repo, services, t, commune);
        lemma_calls_in(repo, services, calls, commune, n);
        assert(numbers.contains(n) && f(n) == t);
    }
    assert(vstd::relations::injective_on(f, numbers)) by {
        assert forall|a: u64, b: u64|
            numbers.contains(a) && numbers.contains(b) && #[trigger] f(a) == #[trigger] f(
                b,
            ) implies a == b by {}
    }
    assert(numbers.map(f) =~= trips) by {
        assert forall|t: Seq<char>| trips.contains(t) <==> numbers.map(f).contains(t) by {
            if trips.contains(t) {
                let n = choose|n: u64| numbers.contains(n) && f(n) == t;
                assert(numbers.contains(n));
            }
        }
    }
    vstd::set_lib::lemma_map_size(numbers, trips, f);
    assert(gone.subset_of(numbers));
    vstd::relations::lemma_injective_on_subset(f, gone, numbers);
    assert(gone.map(f) =~= lost) by {
        assert forall|t: Seq<char>| lost.contains(t) <==> gone.map(f).contains(t) by {
            if lost.contains(t) {
                assert(trips.contains(t));
                let n = choose|n: u64| numbers.contains(n) && f(n) == t;
                assert(gone.contains(n));
            }
            if gone.map(f).contains(t) {
                let n = choose|n: u64| gone.contains(n) && f(n) == t;
                assert(numbers.contains(n));
            }
        }
    }
    vstd::set_lib::lemma_map_size(gone, lost, f);
}

impl NetworkService {
    /// Counts anew, for each commune, the trips that serve it with one of the
    /// services of the day and those of them that are cancelled, by an alert or
    /// by a stop that is skipped; says how many communes there are. To be done
    /// once a cycle of capture, never for a question.
    pub fn rebuild_stats(&mut self, repo: &GtfsRepo, archive: &Archive, services: &[String]) -> (r:
        usize)
        requires
            repo.stop_times@.len() <= i64::MAX,
        ensures
            final(self).thresholds == old(self).thresholds,
            counts_day(final(self).stats@, *repo, *archive, services@),
            r == final(self).stats@.len(),
    {
        let calls = calls_of_day(repo, services);
        let cancelled = cancelled_places(&repo.trips, archive);
        let ghost p = |st: StopTimeRow| is_call(*repo, services@, st);
        proof {
            assert(repo.trips.len() <= usize::MAX && repo.stops.len() <= usize::MAX);
            crate::table::lemma_filter_items(repo.stop_times@, p);
            assert forall|i: int| 0 <= i < calls@.len() implies (#[trigger] calls@[i]).stop
                < repo.stops@.len() by {
                let st = repo.stop_times@.filter(p)[i];
                assert(p(st));
                lemma_stop_row(repo.stops@, st.stop_id);
            }
        }
        let r = self.count_calls(&repo.stops, &calls, &cancelled);
        proof {
            let stats = self.stats@;
            assert forall|i: int| 0 <= i < stats.len() implies counts_commune(
                #[trigger] stats[i],
                *repo,
                *archive,
                services@,
            ) by {
                assert(counts_one(stats[i], repo.stops@, calls@, cancelled@));
                lemma_same_counts(
                    *repo,
                    *archive,
                    services@,
                    calls@,
                    cancelled@,
                    stats[i].commune@,
                );
            }
            assert forall|trip_id: Seq<char>, commune: Seq<char>| #[trigger]
                serves(*repo, services@, trip_id, commune) implies is_counted(stats, commune) by {
                let n = lemma_serving_trip(*repo, services@, trip_id, commune);
                lemma_calls_in(*repo, services@, calls@, commune, n);
                let i = choose|i: int|
                    0 <= i < calls@.len() && (#[trigger] calls@[i]).trip == n && commune_of(
                        repo.stops@[calls@[i].stop as int],
                    ) == Some(commune);
                assert(commune_of(repo.stops@[calls@[i].stop as int]) is Some);
            }
        }
        r
    }
}

proof fn lemma_day_bounds(
    repo: GtfsRepo,
    archive: Archive,
    services: Seq<String>,
    commune: Seq<char>,
)
    ensures
        trips_of_day(repo, services, commune).finite(),
        cancelled_of_day(repo, archive, services, commune).finite(),
        cancelled_of_day(repo, archive, services, commune).len() <= trips_of_day(
            repo,
            services,
            commune,
        ).len(),
{
    let keys = repo.stop_times@.map_values(|st: StopTimeRow| st.trip_id@);
    let trips = trips_of_day(repo, services, commune);
    vstd::seq_lib::seq_to_set_is_finite(keys);
    assert forall|t: Seq<char>| trips.contains(t) implies keys.to_set().contains(t) by {
        let i = choose|i: int|
            0 <= i < repo.stop_times@.len() && (#[trigger] repo.stop_times@[i]).trip_id@ == t
                && is_in(repo, repo.stop_times@[i], commune);
        assert(keys[i] == t);
    }
    assert(trips.subset_of(keys.to_set()));
    vstd::set_lib::lemma_len_subset(trips, keys.to_set());
    let lost = cancelled_of_day(repo, archive, services, commune);
    assert(lost.subset_of(trips));
    vstd::set_lib::lemma_len_subset(lost, trips);
}

/// No commune has more cancelled trips on a day than trips.
pub proof fn a_day_cancels_no_more_than_it_has(
    stats: Seq<NetworkStats>,
    repo: GtfsRepo,
    archive: Archive,
    services: Seq<String>,
    i: int,
)
    requires
        counts_day(stats, repo, archive, services),
        0 <= i < stats.len(),
    ensures
        0 <= stats[i].trips_cancelled <= stats[i].trips_scheduled,
{
    assert(counts_commune(stats[i], repo, archive, services));
    lemma_day_bounds(repo, archive, services, stats[i].commune@);
}

/// Where nothing is cancelled, by an alert or by a stop that is skipped, no
/// commune counts a cancelled trip.
pub proof fn an_undisturbed_day_cancels_nothing(
    stats: Seq<NetworkStats>,
    repo: GtfsRepo,
    archive: Archive,
    services: Seq<String>,
    i: int,
)
    requires
        counts_day(stats, repo, archive, services),
        0 <= i < stats.len(),
        forall|trip_id: Seq<char>| !#[trigger] is_cancelled(archive, trip_id),
    ensures
        stats[i].trips_cancelled == 0,
{
    assert(counts_commune(stats[i], repo, archive, services));
    assert(cancelled_of_day(repo, archive, services, stats[i].commune@) =~= Set::empty());
}

/// A day without services has no commune to count.
pub proof fn a_day_without_services_is_empty(
    stats: Seq<NetworkStats>,
    repo: GtfsRepo,
    archive: Archive,
    services: Seq<String>,
)
    requires
        counts_day(stats, repo, archive, services),
        services.len() == 0,
    ensures
        stats.len() == 0,
{
    if stats.len() > 0 {
        assert(counts_commune(stats[0], repo, archive, services));
        assert(trips_of_day(repo, services, stats[0].commune@) =~= Set::empty());
    }
}

} // verus!
