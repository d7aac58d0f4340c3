//! Laws of cancellation: which trips do not run, by the alerts and by what was
//! observed, and in which communes they are counted.

use crate::archive::{newest, AlertTrip, Archive};
use crate::laws::rows::{a_stop_is_its_first_row, a_trip_is_its_first_row, is_first_stop, is_first_trip};
use crate::network::{commune_of, NetworkService, NetworkStats};
use crate::status::{cancelled_trips, cancels};
use crate::timetable::GtfsRepo;
use crate::today::{
    cancelled_of_day, counts_commune, counts_day, is_cancelled, is_cancelled_by_alert, is_in,
    is_skip, serves, skips_a_stop, trips_of_day,
};
use vstd::prelude::*;

verus! {

/// Whether observation `k` is of the newest feed: none has a larger timestamp.
pub open spec fn is_latest(archive: Archive, k: int) -> bool {
    &&& 0 <= k < archive.observations@.len()
    &&& forall|j: int|
        0 <= j < archive.observations@.len() ==> (#[trigger] archive.observations@[j]).feed_ts
            <= archive.observations@[k].feed_ts
}

/// Whether alert `a` is of the newest alert feed: none has a larger timestamp.
pub open spec fn is_latest_alert(archive: Archive, a: int) -> bool {
    &&& 0 <= a < archive.alerts@.len()
    &&& forall|b: int|
        0 <= b < archive.alerts@.len() ==> (#[trigger] archive.alerts@[b]).feed_ts
            <= archive.alerts@[a].feed_ts
}

/// Whether link `l` ties a trip to alert `a` of the same feed.
pub open spec fn links_trip(archive: Archive, l: int, a: int, trip_id: Seq<char>) -> bool {
    &&& 0 <= l < archive.alert_trips@.len()
    &&& archive.alert_trips@[l].trip_id@ == trip_id
    &&& archive.alert_trips@[l].alert_id@ == archive.alerts@[a].alert_id@
    &&& archive.alert_trips@[l].feed_ts == archive.alerts@[a].feed_ts
}

/// Whether an alert of the newest feed, of effect 1 (no service) or 2 (reduced
/// service), is linked to a trip.
pub open spec fn is_called_off(archive: Archive, trip_id: Seq<char>) -> bool {
    exists|l: int, a: int|
        #![trigger archive.alert_trips@[l], archive.alerts@[a]]
        links_trip(archive, l, a, trip_id) && is_latest_alert(archive, a) && (
        archive.alerts@[a].effect == Some(1i64) || archive.alerts@[a].effect == Some(2i64))
}

/// Whether an observation of the newest feed has a trip skip a stop: its
/// relationship is 1.
pub open spec fn skips_somewhere(archive: Archive, trip_id: Seq<char>) -> bool {
    exists|k: int|
        is_latest(archive, k) && (#[trigger] archive.observations@[k]).trip_id@ == trip_id
            && archive.observations@[k].schedule_relationship == 1
}

pub(crate) proof fn lemma_latest(archive: Archive, k: int)
    requires
        0 <= k < archive.observations@.len(),
    ensures
        is_latest(archive, k) <==> newest(archive.observation_stamps()) == Some(
            archive.observations@[k].feed_ts,
        ),
{
    let ts = archive.observation_stamps();
    crate::archive::newest_is_the_largest(ts);
    assert forall|j: int| 0 <= j < ts.len() implies #[trigger] archive.observations@[j].feed_ts
        == ts[j] by {}
    let t = newest(ts)->0;
    let i = choose|i: int| 0 <= i < ts.len() && ts[i] == t;
    assert(archive.observations@[i].feed_ts == t);
    assert(ts[k] == archive.observations@[k].feed_ts);
}

pub(crate) proof fn lemma_latest_alert(archive: Archive, a: int)
    requires
        0 <= a < archive.alerts@.len(),
    ensures
        is_latest_alert(archive, a) <==> newest(archive.alert_stamps()) == Some(
            archive.alerts@[a].feed_ts,
        ),
{
    let ts = archive.alert_stamps();
    crate::archive::newest_is_the_largest(ts);
    assert forall|j: int| 0 <= j < ts.len() implies #[trigger] archive.alerts@[j].feed_ts
        == ts[j] by {}
    let t = newest(ts)->0;
    let i = choose|i: int| 0 <= i < ts.len() && ts[i] == t;
    assert(archive.alerts@[i].feed_ts == t);
    assert(ts[a] == archive.alerts@[a].feed_ts);
}

pub(crate) proof fn lemma_link_cancels(archive: Archive, l: int)
    requires
        0 <= l < archive.alert_trips@.len(),
    ensures
        cancels(archive, archive.alert_trips@[l]) <==> exists|a: int|
            links_trip(archive, l, a, archive.alert_trips@[l].trip_id@) && is_latest_alert(
                archive,
                a,
            ) && ((#[trigger] archive.alerts@[a]).effect == Some(1i64) || archive.alerts@[a].effect
                == Some(2i64)),
{
    let link = archive.alert_trips@[l];
    if cancels(archive, link) {
        let a = choose|a: int|
            0 <= a < archive.alerts@.len() && (#[trigger] archive.alerts@[a]).alert_id@
                == link.alert_id@ && archive.alerts@[a].feed_ts == link.feed_ts
                && crate::status::stops_trips(archive.alerts@[a]);
        lemma_latest_alert(archive, a);
        assert(links_trip(archive, l, a, link.trip_id@));
    }
    if exists|a: int|
        links_trip(archive, l, a, link.trip_id@) && is_latest_alert(archive, a) && ((
        #[trigger] archive.alerts@[a]).effect == Some(1i64) || archive.alerts@[a].effect == Some(
            2i64,
        )) {
        let a = choose|a: int|
            links_trip(archive, l, a, link.trip_id@) && is_latest_alert(archive, a) && ((
            #[trigger] archive.alerts@[a]).effect == Some(1i64) || archive.alerts@[a].effect
                == Some(2i64));
        lemma_latest_alert(archive, a);
        assert(archive.alerts@[a].alert_id@ == link.alert_id@);
    }
}

pub(crate) proof fn lemma_called_off(archive: Archive, trip_id: Seq<char>)
    ensures
        is_cancelled_by_alert(archive, trip_id) <==> is_called_off(archive, trip_id),
{
    if is_cancelled_by_alert(archive, trip_id) {
        let l = choose|l: int|
            0 <= l < archive.alert_trips@.len() && (#[trigger] archive.alert_trips@[l]).trip_id@
                == trip_id && cancels(archive, archive.alert_trips@[l]);
        lemma_link_cancels(archive, l);
        let a = choose|a: int|
            links_trip(archive, l, a, trip_id) && is_latest_alert(archive, a) && ((
            #[trigger] archive.alerts@[a]).effect == Some(1i64) || archive.alerts@[a].effect
                == Some(2i64));
        assert(links_trip(archive, l, a, trip_id));
        assert(archive.alert_trips@[l].trip_id@ == trip_id);
    }
    if is_called_off(archive, trip_id) {
        let (l, a) = choose|l: int, a: int|
            #![trigger archive.alert_trips@[l], archive.alerts@[a]]
            links_trip(archive, l, a, trip_id) && is_latest_alert(archive, a) && (
            archive.alerts@[a].effect == Some(1i64) || archive.alerts@[a].effect == Some(2i64));
        lemma_link_cancels(archive, l);
        assert(archive.alerts@[a].effect == Some(1i64) || archive.alerts@[a].effect == Some(2i64));
        assert(cancels(archive, archive.alert_trips@[l]));
    }
}

/// The trips that the newest alert feed cancels are those that it links to an
/// alert of the same feed whose effect is 1 (no service) or 2 (reduced service).
/// A trip linked only to alerts of other effects, or of older feeds, is none.
pub proof fn effects_one_and_two_cancel_trips(
    archive: &Archive,
    trip_id: Seq<char>,
    r: Vec<String>,
)
    requires
        call_ensures(cancelled_trips, (archive,), r),
    ensures
        (exists|i: int| 0 <= i < r@.len() && (#[trigger] r@[i])@ == trip_id) <==> is_called_off(
            *archive,
            trip_id,
        ),
{
    let links = archive.alert_trips@;
    let p = |x: AlertTrip| cancels(*archive, x);
    let kept = links.filter(p);
    crate::table::lemma_filter_items(links, p);
    lemma_called_off(*archive, trip_id);
    if exists|i: int| 0 <= i < r@.len() && (#[trigger] r@[i])@ == trip_id {
        let i = choose|i: int| 0 <= i < r@.len() && (#[trigger] r@[i])@ == trip_id;
        assert(p(kept[i]) && links.contains(kept[i]));
        let l = choose|l: int| 0 <= l < links.len() && links[l] == kept[i];
        assert(links[l].trip_id@ == trip_id);
    }
    if is_cancelled_by_alert(*archive, trip_id) {
        let l = choose|l: int|
            0 <= l < links.len() && (#[trigger] links[l]).trip_id@ == trip_id && cancels(
                *archive,
                links[l],
            );
        assert(links.contains(links[l]) && p(links[l]));
        assert(kept.contains(links[l]));
        let i = choose|i: int| 0 <= i < kept.len() && kept[i] == links[l];
        assert(r@[i]@ == trip_id);
    }
}

/// A trip counts as cancelled where an alert of the newest feed, of effect 1 or
/// 2, is linked to it, or an observation of the newest feed has it skip a stop.
pub proof fn a_trip_is_cancelled_by_alert_or_by_skipping(archive: Archive, trip_id: Seq<char>)
    ensures
        is_cancelled(archive, trip_id) <==> is_called_off(archive, trip_id) || skips_somewhere(
            archive,
            trip_id,
        ),
{
    lemma_called_off(archive, trip_id);
    if skips_a_stop(archive, trip_id) {
        let k = choose|k: int|
            0 <= k < archive.observations@.len() && (
            #[trigger] archive.observations@[k]).trip_id@ == trip_id && is_skip(
                archive,
                archive.observations@[k],
            );
        lemma_latest(archive, k);
    }
    if skips_somewhere(archive, trip_id) {
        let k = choose|k: int|
            is_latest(archive, k) && (#[trigger] archive.observations@[k]).trip_id@ == trip_id
                && archive.observations@[k].schedule_relationship == 1;
        lemma_latest(archive, k);
        assert(is_skip(archive, archive.observations@[k]));
    }
}

/// Whether a trip runs with a listed service and calls at a stop of a commune:
/// row `t` is the trip's, row `i` the call, row `s` the stop.
pub open spec fn serves_by(
    repo: GtfsRepo,
    services: Seq<String>,
    trip_id: Seq<char>,
    commune: Seq<char>,
    t: int,
    i: int,
    s: int,
) -> bool {
    &&& is_first_trip(repo.trips@, t, trip_id)
    &&& exists|k: int|
        0 <= k < services.len() && (#[trigger] services[k])@ == repo.trips@[t].service_id@
    &&& 0 <= i < repo.stop_times@.len()
    &&& repo.stop_times@[i].trip_id@ == trip_id
    &&& is_first_stop(repo.stops@, s, repo.stop_times@[i].stop_id@)
    &&& commune_of(repo.stops@[s]) == Some(commune)
}

/// Whether a trip runs with a listed service and calls in a commune.
pub open spec fn serves_somehow(
    repo: GtfsRepo,
    services: Seq<String>,
    trip_id: Seq<char>,
    commune: Seq<char>,
) -> bool {
    exists|t: int, i: int, s: int| #[trigger]
        serves_by(repo, services, trip_id, commune, t, i, s)
}

/// The trips that serve a commune.
pub open spec fn serving(repo: GtfsRepo, services: Seq<String>, commune: Seq<char>) -> Set<
    Seq<char>,
> {
    Set::new(|trip_id: Seq<char>| serves_somehow(repo, services, trip_id, commune))
}

/// The trips that were to serve a commune and are called off or skip a stop.
pub open spec fn missing(
    repo: GtfsRepo,
    archive: Archive,
    services: Seq<String>,
    commune: Seq<char>,
) -> Set<Seq<char>> {
    Set::new(
        |trip_id: Seq<char>|
            serves_somehow(repo, services, trip_id, commune) && (is_called_off(archive, trip_id)
                || skips_somewhere(archive, trip_id)),
    )
}

pub(crate) proof fn lemma_serves(
    repo: GtfsRepo,
    services: Seq<String>,
    trip_id: Seq<char>,
    commune: Seq<char>,
)
    ensures
        serves(repo, services, trip_id, commune) <==> serves_somehow(
            repo,
            services,
            trip_id,
            commune,
        ),
{
    if serves(repo, services, trip_id, commune) {
        let i = choose|i: int|
            0 <= i < repo.stop_times@.len() && (#[trigger] repo.stop_times@[i]).trip_id@ == trip_id
                && is_in(repo, repo.stop_times@[i], commune);
        let st = repo.stop_times@[i];
        a_trip_is_its_first_row(repo.trips@, st.trip_id);
        a_stop_is_its_first_row(repo.stops@, st.stop_id);
        let x = crate::timetable::trip_row(repo.trips@, st.trip_id@)->0;
        let t = choose|t: int|
            is_first_trip(repo.trips@, t, st.trip_id@) && #[trigger] repo.trips@[t] == x;
        let y = GtfsRepo::stop_row(repo.stops@, st.stop_id@)->0;
        let s = choose|s: int|
            is_first_stop(repo.stops@, s, st.stop_id@) && #[trigger] repo.stops@[s] == y;
        assert(serves_by(repo, services, trip_id, commune, t, i, s));
    }
    if serves_somehow(repo, services, trip_id, commune) {
        let (t, i, s) = choose|t: int, i: int, s: int| #[trigger]
            serves_by(repo, services, trip_id, commune, t, i, s);
        let st = repo.stop_times@[i];
        a_trip_is_its_first_row(repo.trips@, st.trip_id);
        a_stop_is_its_first_row(repo.stops@, st.stop_id);
        assert(crate::timetable::trip_row(repo.trips@, st.trip_id@) == Some(repo.trips@[t]));
        assert(GtfsRepo::stop_row(repo.stops@, st.stop_id@) == Some(repo.stops@[s]));
        assert(is_in(repo, st, commune));
    }
}

/// Each row of the day's counts tells how many trips serve its commune, and how
/// many of them are linked to an alert of effect 1 or 2 of the newest alert feed
/// or skip a stop by the newest observations. A commune that a trip serves has a
/// row, and no commune has two.
pub proof fn a_commune_counts_its_cancelled_trips(
    stats: Seq<NetworkStats>,
    repo: GtfsRepo,
    archive: Archive,
    services: Seq<String>,
)
    requires
        counts_day(stats, repo, archive, services),
    ensures
        forall|i: int|
            0 <= i < stats.len() ==> {
                let commune = (#[trigger] stats[i]).commune@;
                &&& stats[i].trips_scheduled == serving(repo, services, commune).len()
                &&& stats[i].trips_cancelled == missing(repo, archive, services, commune).len()
                &&& stats[i].trips_scheduled > 0
            },
        forall|i: int, j: int|
            0 <= i < stats.len() && 0 <= j < stats.len() && i != j ==> (
            #[trigger] stats[i]).commune@ != (#[trigger] stats[j]).commune@,
        forall|trip_id: Seq<char>, commune: Seq<char>| #[trigger]
            serves_somehow(repo, services, trip_id, commune) ==> exists|i: int|
                0 <= i < stats.len() && (#[trigger] stats[i]).commune@ == commune,
{
    assert forall|i: int| 0 <= i < stats.len() implies {
        let commune = (#[trigger] stats[i]).commune@;
        &&& stats[i].trips_scheduled == serving(repo, services, commune).len()
        &&& stats[i].trips_cancelled == missing(repo, archive, services, commune).len()
        &&& stats[i].trips_scheduled > 0
    } by {
        let commune = stats[i].commune@;
        assert(counts_commune(stats[i], repo, archive, services));
        let trips = trips_of_day(repo, services, commune);
        let lost = cancelled_of_day(repo, archive, services, commune);
        let serving_trips = serving(repo, services, commune);
        let missing_trips = missing(repo, archive, services, commune);
        assert forall|t: Seq<char>| #[trigger] trips.contains(t) <==> serving_trips.contains(t) by {
            lemma_serves(repo, services, t, commune);
        }
        assert forall|t: Seq<char>| #[trigger] lost.contains(t) <==> missing_trips.contains(t) by {
            lemma_serves(repo, services, t, commune);
            a_trip_is_cancelled_by_alert_or_by_skipping(archive, t);
        }
        assert(trips =~= serving_trips);
        assert(lost =~= missing_trips);
    }
    assert forall|trip_id: Seq<char>, commune: Seq<char>| #[trigger]
        serves_somehow(repo, services, trip_id, commune) implies exists|i: int|
        0 <= i < stats.len() && (#[trigger] stats[i]).commune@ == commune by {
        lemma_serves(repo, services, trip_id, commune);
    }
}

/// A trip that the newest alert feed links to an alert of effect 1 or 2 is
/// counted among the cancelled ones of every commune that it serves.
pub proof fn a_trip_called_off_is_counted_wherever_it_serves(
    stats: Seq<NetworkStats>,
    repo: GtfsRepo,
    archive: Archive,
    services: Seq<String>,
    trip_id: Seq<char>,
    commune: Seq<char>,
)
    requires
        counts_day(stats, repo, archive, services),
        serves_somehow(repo, services, trip_id, commune),
        is_called_off(archive, trip_id),
    ensures
        missing(repo, archive, services, commune).contains(trip_id),
        exists|i: int|
            0 <= i < stats.len() && (#[trigger] stats[i]).commune@ == commune
                && stats[i].trips_cancelled >= 1,
{
    a_commune_counts_its_cancelled_trips(stats, repo, archive, services);
    let i = choose|i: int| 0 <= i < stats.len() && (#[trigger] stats[i]).commune@ == commune;
    let gone = missing(repo, archive, services, commune);
    assert(gone.contains(trip_id));
    let keys = repo.stop_times@.map_values(|st: crate::loader::StopTimeRow| st.trip_id@);
    vstd::seq_lib::seq_to_set_is_finite(keys);
    assert forall|t: Seq<char>| gone.contains(t) implies keys.to_set().contains(t) by {
        let (a, b, c) = choose|a: int, b: int, c: int| #[trigger]
            serves_by(repo, services, t, commune, a, b, c);
        assert(keys[b] == t);
    }
    assert(gone.subset_of(keys.to_set()));
    vstd::set_lib::lemma_set_subset_finite(keys.to_set(), gone);
    if gone.len() == 0 {
        gone.lemma_len0_is_empty();
    }
    assert(stats[i].trips_cancelled >= 1);
}

/// Counting a day anew leaves in the counts, for each commune that a trip serves,
/// how many do and how many of them are cancelled, and says how many communes there
/// are; the thresholds stay as they were.
pub proof fn counting_a_day_counts_its_cancelled_trips(
    network: &mut NetworkService,
    repo: &GtfsRepo,
    archive: &Archive,
    services: &[String],
    r: usize,
)
    requires
        call_ensures(NetworkService::rebuild_stats, (network, repo, archive, services), r),
    ensures
        final(network).thresholds == old(network).thresholds,
        r == final(network).stats@.len(),
        forall|i: int|
            0 <= i < final(network).stats@.len() ==> {
                let commune = (#[trigger] final(network).stats@[i]).commune@;
                &&& final(network).stats@[i].trips_scheduled == serving(
                    *repo,
                    services@,
                    commune,
                ).len()
                &&& final(network).stats@[i].trips_cancelled == missing(
                    *repo,
                    *archive,
                    services@,
                    commune,
                ).len()
                &&& final(network).stats@[i].trips_scheduled > 0
            },
        forall|trip_id: Seq<char>, commune: Seq<char>| #[trigger]
            serves_somehow(*repo, services@, trip_id, commune) ==> exists|i: int|
                0 <= i < final(network).stats@.len() && (
                #[trigger] final(network).stats@[i]).commune@ == commune,
{
    a_commune_counts_its_cancelled_trips(final(network).stats@, *repo, *archive, services@);
}

} // verus!
