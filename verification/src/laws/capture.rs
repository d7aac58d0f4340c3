//! Laws of the capture: what the archive holds after writing, what is kept of the
//! feeds.

use crate::archive::{
    same_alert, same_alert_trip, same_observation, AlertRecord, AlertTrip, Archive, Observation,
};
use crate::realtime::{
    alerts_from, feed_fits, feed_observations, instants_fit, observation_of, observations_from, Alert,
    AlertEntity, InformedEntity, StopTimeUpdate, TranslatedString, Translation, TripDescriptor,
    TripUpdateEntity,
};
use crate::table::{all_written, has_key, is_key};
use crate::text::{joined, pieces};
use vstd::prelude::*;

verus! {

// The archive.

proof fn lemma_written<T>(rows: Seq<T>, news: Seq<T>, same: spec_fn(T, T) -> bool)
    requires
        is_key(same),
    ensures
        forall|k: int|
            0 <= k < news.len() && !has_later(news, k, same) ==> all_written(
                rows,
                news,
                same,
            ).contains(#[trigger] news[k]),
        forall|r: T|
            !has_key(news, r, same) ==> (#[trigger] all_written(rows, news, same).contains(r)
                <==> rows.contains(r)),
        forall|r: T|
            has_key(news, r, same) && #[trigger] all_written(rows, news, same).contains(r)
                ==> exists|k: int|
                0 <= k < news.len() && #[trigger] news[k] == r && !has_later(news, k, same),
{
    let w = all_written(rows, news, same);
    assert forall|k: int| 0 <= k < news.len() && !has_later(news, k, same) implies w.contains(
        #[trigger] news[k],
    ) by {
        crate::table::the_last_row_written_stays(rows, news, same, k);
    }
    assert forall|r: T| !has_key(news, r, same) implies (#[trigger] w.contains(r)
        <==> rows.contains(r)) by {
        crate::table::other_rows_stay(rows, news, same, r);
    }
    assert forall|r: T| has_key(news, r, same) && #[trigger] w.contains(r) implies exists|k: int|
        0 <= k < news.len() && #[trigger] news[k] == r && !has_later(news, k, same) by {
        lemma_last_written(rows, news, same, r);
    }
}

proof fn lemma_last_written<T>(rows: Seq<T>, news: Seq<T>, same: spec_fn(T, T) -> bool, r: T)
    requires
        is_key(same),
        has_key(news, r, same),
        all_written(rows, news, same).contains(r),
    ensures
        exists|k: int|
            0 <= k < news.len() && #[trigger] news[k] == r && !has_later(news, k, same),
    decreases news.len(),
{
    let t = news.drop_last();
    let row = news.last();
    let before = all_written(rows, t, same);
    let p = |x: T| !same(x, row);
    let kept = before.filter(p);
    let w = all_written(rows, news, same);
    crate::table::lemma_filter_items(before, p);
    let i = choose|i: int| 0 <= i < w.len() && w[i] == r;
    if i < kept.len() {
        assert(kept[i] == r);
        assert(p(r) && before.contains(r));
        let j = choose|j: int| 0 <= j < news.len() && same(#[trigger] news[j], r);
        if j == news.len() - 1 {
            assert(same(row, r));
            assert(same(r, row));
        } else {
            assert(t[j] == news[j]);
            assert(has_key(t, r, same));
        }
        lemma_last_written(rows, t, same, r);
        let k = choose|k: int|
            0 <= k < t.len() && #[trigger] t[k] == r && !has_later(t, k, same);
        assert(news[k] == r);
        assert forall|j: int| k < j < news.len() implies !same(#[trigger] news[j], news[k]) by {
            if j < t.len() {
                assert(t[j] == news[j]);
                assert(!same(t[j], t[k]));
            } else if same(news[j], news[k]) {
                assert(same(news[k], news[j]));
            }
        }
    } else {
        assert(news[news.len() - 1] == r);
    }
}

/// Whether a later row has the key of row `k`.
pub open spec fn has_later<T>(news: Seq<T>, k: int, same: spec_fn(T, T) -> bool) -> bool {
    exists|j: int| k < j < news.len() && same(#[trigger] news[j], news[k])
}

/// Whether two observations are of one feed, one trip and one place in it.
pub open spec fn one_sight(a: Observation, b: Observation) -> bool {
    a.feed_ts == b.feed_ts && a.trip_id@ == b.trip_id@ && a.stop_sequence == b.stop_sequence
}

/// Whether two alerts are of one feed and have one name.
pub open spec fn one_alert(a: AlertRecord, b: AlertRecord) -> bool {
    a.feed_ts == b.feed_ts && a.alert_id@ == b.alert_id@
}

/// Whether two links are of one feed, one alert and one trip.
pub open spec fn one_link(a: AlertTrip, b: AlertTrip) -> bool {
    a.feed_ts == b.feed_ts && a.alert_id@ == b.alert_id@ && a.trip_id@ == b.trip_id@
}

/// Whether a row is what was written last under its key, `one` telling keys apart,
/// or was there and its key was not written.
pub open spec fn stays<T>(
    before: Seq<T>,
    rows: Seq<T>,
    one: spec_fn(T, T) -> bool,
    row: T,
) -> bool {
    ||| exists|k: int|
        0 <= k < rows.len() && #[trigger] rows[k] == row && forall|j: int|
            k < j < rows.len() ==> !one(#[trigger] rows[j], row)
    ||| before.contains(row) && forall|j: int|
        0 <= j < rows.len() ==> !one(#[trigger] rows[j], row)
}

pub(crate) proof fn lemma_stays<T>(
    before: Seq<T>,
    rows: Seq<T>,
    same: spec_fn(T, T) -> bool,
    one: spec_fn(T, T) -> bool,
)
    requires
        is_key(same),
        forall|a: T, b: T| #[trigger] same(a, b) == one(a, b),
    ensures
        forall|r: T| #[trigger]
            all_written(before, rows, same).contains(r) <==> stays(before, rows, one, r),
{
    let w = all_written(before, rows, same);
    lemma_written(before, rows, same);
    assert forall|r: T| #[trigger] w.contains(r) <==> stays(before, rows, one, r) by {
        if w.contains(r) {
            if has_key(rows, r, same) {
                let k = choose|k: int|
                    0 <= k < rows.len() && #[trigger] rows[k] == r && !has_later(rows, k, same);
                assert forall|j: int| k < j < rows.len() implies !one(#[trigger] rows[j], r) by {
                    assert(!same(rows[j], rows[k]));
                }
                assert(rows[k] == r);
            } else {
                assert forall|j: int| 0 <= j < rows.len() implies !one(#[trigger] rows[j], r) by {
                    assert(!same(rows[j], r));
                }
            }
        }
        if stays(before, rows, one, r) {
            if exists|k: int|
                0 <= k < rows.len() && #[trigger] rows[k] == r && forall|j: int|
                    k < j < rows.len() ==> !one(#[trigger] rows[j], r) {
                let k = choose|k: int|
                    0 <= k < rows.len() && #[trigger] rows[k] == r && forall|j: int|
                        k < j < rows.len() ==> !one(#[trigger] rows[j], r);
                assert(!has_later(rows, k, same));
                assert(w.contains(rows[k]));
            } else {
                assert(!has_key(rows, r, same));
            }
        }
    }
}

/// After observations are written the archive holds, for each feed, trip and place
/// in the trip, the one that was written last, and what it held under the others;
/// it holds none twice, and its alerts and links are what they were.
pub proof fn observations_are_kept_by_feed_trip_and_place(
    archive: &mut Archive,
    rows: &[Observation],
    r: usize,
)
    requires
        old(archive).wf(),
        call_ensures(Archive::insert_observations, (archive, rows), r),
    ensures
        r == rows@.len(),
        forall|o: Observation| #[trigger]
            final(archive).observations@.contains(o) <==> stays(
                old(archive).observations@,
                rows@,
                |a: Observation, b: Observation| one_sight(a, b),
                o,
            ),
        forall|i: int, j: int|
            #![trigger final(archive).observations@[i], final(archive).observations@[j]]
            0 <= i < j < final(archive).observations@.len() ==> !one_sight(
                final(archive).observations@[i],
                final(archive).observations@[j],
            ),
        final(archive).alerts@ == old(archive).alerts@,
        final(archive).alert_trips@ == old(archive).alert_trips@,
{
    crate::archive::archive_keys_are_keys();
    let one = |a: Observation, b: Observation| one_sight(a, b);
    lemma_stays(old(archive).observations@, rows@, same_observation(), one);
    crate::table::all_written_is_keyed(old(archive).observations@, rows@, same_observation());
    assert forall|i: int, j: int|
        #![trigger final(archive).observations@[i], final(archive).observations@[j]]
        0 <= i < j < final(archive).observations@.len() implies !one_sight(
        final(archive).observations@[i],
        final(archive).observations@[j],
    ) by {
        assert(!same_observation()(
            final(archive).observations@[i],
            final(archive).observations@[j],
        ));
    }
}

/// After alerts are written the archive holds, for each feed and name, the one
/// that was written last, and what it held under the others; it holds none twice,
/// and its observations and links are what they were.
pub proof fn alerts_are_kept_by_feed_and_name(
    archive: &mut Archive,
    rows: &[AlertRecord],
    r: usize,
)
    requires
        old(archive).wf(),
        call_ensures(Archive::insert_alerts, (archive, rows), r),
    ensures
        r == rows@.len(),
        forall|a: AlertRecord| #[trigger]
            final(archive).alerts@.contains(a) <==> stays(
                old(archive).alerts@,
                rows@,
                |a: AlertRecord, b: AlertRecord| one_alert(a, b),
                a,
            ),
        forall|i: int, j: int|
            #![trigger final(archive).alerts@[i], final(archive).alerts@[j]]
            0 <= i < j < final(archive).alerts@.len() ==> !one_alert(
                final(archive).alerts@[i],
                final(archive).alerts@[j],
            ),
        final(archive).observations@ == old(archive).observations@,
        final(archive).alert_trips@ == old(archive).alert_trips@,
{
    crate::archive::archive_keys_are_keys();
    let one = |a: AlertRecord, b: AlertRecord| one_alert(a, b);
    lemma_stays(old(archive).alerts@, rows@, same_alert(), one);
    crate::table::all_written_is_keyed(old(archive).alerts@, rows@, same_alert());
    assert forall|i: int, j: int|
        #![trigger final(archive).alerts@[i], final(archive).alerts@[j]]
        0 <= i < j < final(archive).alerts@.len() implies !one_alert(
        final(archive).alerts@[i],
        final(archive).alerts@[j],
    ) by {
        assert(!same_alert()(final(archive).alerts@[i], final(archive).alerts@[j]));
    }
}

/// After links are written the archive holds, for each feed, alert and trip, the
/// one that was written last, and what it held under the others; it holds none
/// twice, and its observations and alerts are what they were.
pub proof fn links_are_kept_by_feed_alert_and_trip(
    archive: &mut Archive,
    rows: &[AlertTrip],
    r: usize,
)
    requires
        old(archive).wf(),
        call_ensures(Archive::insert_alert_trips, (archive, rows), r),
    ensures
        r == rows@.len(),
        forall|a: AlertTrip| #[trigger]
            final(archive).alert_trips@.contains(a) <==> stays(
                old(archive).alert_trips@,
                rows@,
                |a: AlertTrip, b: AlertTrip| one_link(a, b),
                a,
            ),
        forall|i: int, j: int|
            #![trigger final(archive).alert_trips@[i], final(archive).alert_trips@[j]]
            0 <= i < j < final(archive).alert_trips@.len() ==> !one_link(
                final(archive).alert_trips@[i],
                final(archive).alert_trips@[j],
            ),
        final(archive).observations@ == old(archive).observations@,
        final(archive).alerts@ == old(archive).alerts@,
{
    crate::archive::archive_keys_are_keys();
    let one = |a: AlertTrip, b: AlertTrip| one_link(a, b);
    lemma_stays(old(archive).alert_trips@, rows@, same_alert_trip(), one);
    crate::table::all_written_is_keyed(old(archive).alert_trips@, rows@, same_alert_trip());
    assert forall|i: int, j: int|
        #![trigger final(archive).alert_trips@[i], final(archive).alert_trips@[j]]
        0 <= i < j < final(archive).alert_trips@.len() implies !one_link(
        final(archive).alert_trips@[i],
        final(archive).alert_trips@[j],
    ) by {
        assert(!same_alert_trip()(final(archive).alert_trips@[i], final(archive).alert_trips@[j]));
    }
}

/// The newest feed that was seen is the largest timestamp of any row of the three
/// tables; there is none exactly where they are empty.
pub proof fn the_last_feed_is_the_largest_timestamp(archive: &Archive, r: Option<i64>)
    requires
        call_ensures(Archive::last_feed_ts, (archive,), r),
    ensures
        r is None <==> archive.observations@.len() == 0 && archive.alerts@.len() == 0
            && archive.alert_trips@.len() == 0,
        r matches Some(t) ==> {
            &&& forall|i: int|
                0 <= i < archive.observations@.len() ==> (
                #[trigger] archive.observations@[i]).feed_ts <= t
            &&& forall|i: int|
                0 <= i < archive.alerts@.len() ==> (#[trigger] archive.alerts@[i]).feed_ts <= t
            &&& forall|i: int|
                0 <= i < archive.alert_trips@.len() ==> (
                #[trigger] archive.alert_trips@[i]).feed_ts <= t
            &&& (exists|i: int|
                0 <= i < archive.observations@.len() && (
                #[trigger] archive.observations@[i]).feed_ts == t) || (exists|i: int|
                0 <= i < archive.alerts@.len() && (#[trigger] archive.alerts@[i]).feed_ts == t)
                || (exists|i: int|
                0 <= i < archive.alert_trips@.len() && (
                #[trigger] archive.alert_trips@[i]).feed_ts == t)
        },
{
    let a = archive.observation_stamps();
    let b = archive.alert_stamps();
    let c = archive.alert_trip_stamps();
    let all = a + b + c;
    crate::archive::newest_is_the_largest(all);
    if let Some(t) = r {
        assert forall|i: int| 0 <= i < archive.observations@.len() implies (
        #[trigger] archive.observations@[i]).feed_ts <= t by {
            assert(all[i] == archive.observations@[i].feed_ts);
        }
        assert forall|i: int| 0 <= i < archive.alerts@.len() implies (
        #[trigger] archive.alerts@[i]).feed_ts <= t by {
            assert(all[a.len() + i] == archive.alerts@[i].feed_ts);
        }
        assert forall|i: int| 0 <= i < archive.alert_trips@.len() implies (
        #[trigger] archive.alert_trips@[i]).feed_ts <= t by {
            assert(all[a.len() + b.len() + i] == archive.alert_trips@[i].feed_ts);
        }
        let k = choose|k: int| 0 <= k < all.len() && all[k] == t;
        if k < a.len() {
            assert(archive.observations@[k].feed_ts == t);
        } else if k < a.len() + b.len() {
            assert(archive.alerts@[k - a.len()].feed_ts == t);
        } else {
            assert(archive.alert_trips@[k - a.len() - b.len()].feed_ts == t);
        }
    }
}

// What is kept of the feeds.

/// Whether an update is worth keeping: it names its stop and its place, is not
/// marked as without data (2), and either skips the stop (1) or has a predicted
/// time, that of the departure or, without one, that of the arrival.
pub open spec fn is_worth_keeping(u: StopTimeUpdate) -> bool {
    &&& u.stop_id is Some
    &&& u.stop_sequence is Some
    &&& u.schedule_relationship != Some(2i64)
    &&& {
        ||| u.schedule_relationship == Some(1i64)
        ||| (u.departure matches Some(e) && e.time is Some)
        ||| (u.departure is None && (u.arrival matches Some(e) && e.time is Some))
    }
}

/// Whether times and delay of an observation are those of an event.
pub open spec fn is_timed(
    o: Observation,
    time: Option<i64>,
    delay: Option<i64>,
) -> bool {
    &&& o.delay_s == delay
    &&& o.predicted_ms is Some <==> time is Some
    &&& time is Some ==> o.predicted_ms->0 == time->0 * 1000
    &&& o.scheduled_ms is Some <==> time is Some && delay is Some
    &&& time is Some && delay is Some ==> o.scheduled_ms->0 == time->0 * 1000 - delay->0 * 1000
}

/// Whether an observation tells what an update of a trip does.
pub open spec fn is_sight_of(
    o: Observation,
    feed_ts: i64,
    captured_at: i64,
    trip: TripDescriptor,
    u: StopTimeUpdate,
) -> bool {
    &&& o.feed_ts == feed_ts
    &&& o.captured_at == captured_at
    &&& trip.trip_id == Some(o.trip_id)
    &&& o.route_id == trip.route_id
    &&& u.stop_id == Some(o.stop_id)
    &&& u.stop_sequence == Some(o.stop_sequence)
    &&& u.schedule_relationship is Some ==> o.schedule_relationship == u.schedule_relationship->0
    &&& u.schedule_relationship is None ==> o.schedule_relationship == 0
    &&& u.departure matches Some(e) ==> is_timed(o, e.time, e.delay)
    &&& u.departure is None ==> (u.arrival matches Some(e) ==> is_timed(o, e.time, e.delay))
    &&& u.departure is None && u.arrival is None ==> is_timed(o, None, None)
}

/// Whether update `u` of entity `e` is one of a trip that the entity names.
pub open spec fn is_update(entities: Seq<TripUpdateEntity>, e: int, u: int) -> bool {
    &&& 0 <= e < entities.len()
    &&& entities[e].trip_update is Some
    &&& entities[e].trip_update->0.trip is Some
    &&& entities[e].trip_update->0.trip->0.trip_id is Some
    &&& 0 <= u < entities[e].trip_update->0.stop_time_update@.len()
}

/// Whether the time of an update, and the time for which it was planned, fit in
/// milliseconds.
pub open spec fn has_room(u: StopTimeUpdate) -> bool {
    let event = if u.departure is Some {
        u.departure
    } else {
        u.arrival
    };
    event is Some && event->0.time is Some ==> {
        &&& i64::MIN <= event->0.time->0 * 1000 <= i64::MAX
        &&& event->0.delay is Some ==> i64::MIN <= event->0.delay->0 * 1000 <= i64::MAX
            && i64::MIN <= (event->0.time->0 - event->0.delay->0) * 1000 <= i64::MAX
    }
}

/// The instants of a feed fit exactly where those of every update that is worth
/// keeping do.
pub proof fn instants_fit_update_by_update(entities: &[TripUpdateEntity], r: bool)
    requires
        call_ensures(instants_fit, (entities,), r),
    ensures
        r <==> forall|e: int, u: int| #[trigger]
            is_update(entities@, e, u) && is_worth_keeping(
                entities@[e].trip_update->0.stop_time_update@[u],
            ) ==> has_room(entities@[e].trip_update->0.stop_time_update@[u]),
{
    if r {
        assert forall|e: int, u: int| #[trigger]
            is_update(entities@, e, u) && is_worth_keeping(
                entities@[e].trip_update->0.stop_time_update@[u],
            ) implies has_room(entities@[e].trip_update->0.stop_time_update@[u]) by {
            assert(entities@[e].fits());
            assert(entities@[e].trip_update->0.stop_time_update@[u].is_kept());
            assert(entities@[e].trip_update->0.stop_time_update@[u].fits());
        }
    } else {
        let e = choose|e: int| 0 <= e < entities@.len() && !(#[trigger] entities@[e]).fits();
        let all = entities@[e].trip_update->0.stop_time_update@;
        let u = choose|u: int|
            0 <= u < all.len() && (#[trigger] all[u]).is_kept() && !all[u].fits();
        assert(is_update(entities@, e, u));
        assert(is_worth_keeping(all[u]) && !has_room(all[u]));
    }
}

/// Each observation tells what an update of a named trip does that is worth
/// keeping.
pub proof fn an_observation_tells_an_update(
    feed_ts: i64,
    captured_at: i64,
    entities: &[TripUpdateEntity],
    r: Vec<Observation>,
    n: int,
) -> (w: (int, int))
    requires
        feed_fits(entities@),
        call_ensures(observations_from, (feed_ts, captured_at, entities), r),
        0 <= n < r@.len(),
    ensures
        is_update(entities@, w.0, w.1),
        is_worth_keeping(entities@[w.0].trip_update->0.stop_time_update@[w.1]),
        is_sight_of(
            r@[n],
            feed_ts,
            captured_at,
            entities@[w.0].trip_update->0.trip->0,
            entities@[w.0].trip_update->0.stop_time_update@[w.1],
        ),
{
    let w = crate::realtime::lemma_feed_observations_from(feed_ts, captured_at, entities@, n);
    assert(entities@[w.0].fits());
    assert(entities@[w.0].trip_update->0.stop_time_update@[w.1].fits());
    w
}

proof fn lemma_observed(
    feed_ts: i64,
    captured_at: i64,
    entities: Seq<TripUpdateEntity>,
    e: int,
    u: int,
) -> (n: int)
    requires
        is_update(entities, e, u),
        entities[e].trip_update->0.stop_time_update@[u].is_kept(),
    ensures
        0 <= n < feed_observations(feed_ts, captured_at, entities).len(),
        feed_observations(feed_ts, captured_at, entities)[n] == observation_of(
            feed_ts,
            captured_at,
            entities[e].trip_update->0.trip->0.trip_id->0,
            entities[e].trip_update->0.trip->0.route_id,
            entities[e].trip_update->0.stop_time_update@[u],
        ),
    decreases entities.len(),
{
    let t = entities.drop_last();
    let before = feed_observations(feed_ts, captured_at, t);
    if e < t.len() {
        assert(t[e] == entities[e]);
        lemma_observed(feed_ts, captured_at, t, e, u)
    } else {
        let x = entities[e];
        let updates = x.trip_update->0.stop_time_update@;
        let p = |u: StopTimeUpdate| u.is_kept();
        let kept = updates.filter(p);
        crate::table::lemma_filter_items(updates, p);
        assert(p(updates[u]) && updates.contains(updates[u]));
        assert(kept.contains(updates[u]));
        let k = choose|k: int| 0 <= k < kept.len() && kept[k] == updates[u];
        before.len() + k
    }
}

/// Every update of a named trip that is worth keeping is observed.
pub proof fn every_update_worth_keeping_is_observed(
    feed_ts: i64,
    captured_at: i64,
    entities: &[TripUpdateEntity],
    r: Vec<Observation>,
    e: int,
    u: int,
) -> (n: int)
    requires
        feed_fits(entities@),
        call_ensures(observations_from, (feed_ts, captured_at, entities), r),
        is_update(entities@, e, u),
        is_worth_keeping(entities@[e].trip_update->0.stop_time_update@[u]),
    ensures
        0 <= n < r@.len(),
        is_sight_of(
            r@[n],
            feed_ts,
            captured_at,
            entities@[e].trip_update->0.trip->0,
            entities@[e].trip_update->0.stop_time_update@[u],
        ),
{
    assert(entities@[e].fits());
    assert(entities@[e].trip_update->0.stop_time_update@[u].is_kept());
    assert(entities@[e].trip_update->0.stop_time_update@[u].fits());
    lemma_observed(feed_ts, captured_at, entities@, e, u)
}

/// The updates of a trip are observed one by one, in their order: those of an entity
/// whose updates come in two parts are those of the parts, one behind the other.
pub proof fn updates_are_observed_in_their_order(
    feed_ts: i64,
    captured_at: i64,
    whole: TripUpdateEntity,
    front: TripUpdateEntity,
    back: TripUpdateEntity,
)
    requires
        whole.trip_update is Some && front.trip_update is Some && back.trip_update is Some,
        whole.trip_update->0.trip == front.trip_update->0.trip,
        whole.trip_update->0.trip == back.trip_update->0.trip,
        whole.trip_update->0.stop_time_update@ == front.trip_update->0.stop_time_update@
            + back.trip_update->0.stop_time_update@,
    ensures
        feed_observations(feed_ts, captured_at, seq![whole]) == feed_observations(
            feed_ts,
            captured_at,
            seq![front, back],
        ),
{
    let none = Seq::<TripUpdateEntity>::empty();
    let p = |u: StopTimeUpdate| u.is_kept();
    crate::table::lemma_filter_concat(
        front.trip_update->0.stop_time_update@,
        back.trip_update->0.stop_time_update@,
        p,
    );
    assert(seq![whole].drop_last() =~= none);
    assert(seq![front, back].drop_last() =~= seq![front]);
    assert(seq![front].drop_last() =~= none);
    let (w, f, b) = (
        whole.observations(feed_ts, captured_at),
        front.observations(feed_ts, captured_at),
        back.observations(feed_ts, captured_at),
    );
    assert(w =~= f + b);
    assert(feed_observations(feed_ts, captured_at, none) =~= Seq::<Observation>::empty());
    assert(seq![whole].last() == whole);
    assert(seq![front].last() == front);
    assert(seq![front, back].last() == back);
    assert(feed_observations(feed_ts, captured_at, seq![whole]) =~= w);
    assert(feed_observations(feed_ts, captured_at, seq![front]) =~= f);
    assert(feed_observations(feed_ts, captured_at, seq![front, back]) =~= f + b);
}

/// Whether text `i` is the first that is marked as French.
pub open spec fn is_first_french(texts: Seq<Translation>, i: int) -> bool {
    &&& 0 <= i < texts.len()
    &&& texts[i].language matches Some(l) && l@ == "fr"@
    &&& forall|k: int|
        0 <= k < i ==> !((#[trigger] texts[k]).language matches Some(l) && l@ == "fr"@)
}

/// Whether a text is the first French one or, where none is French, the first.
pub open spec fn is_in_french(t: TranslatedString, text: Option<String>) -> bool {
    let texts = t.translation@;
    &&& forall|i: int| is_first_french(texts, i) ==> text == (#[trigger] texts[i]).text
    &&& (forall|i: int| 0 <= i < texts.len() ==> !is_first_french(texts, i)) ==> text == (
    if texts.len() > 0 {
        texts[0].text
    } else {
        None
    })
}

proof fn lemma_first_french(texts: Seq<Translation>)
    ensures
        forall|i: int| #[trigger]
            is_first_french(texts, i) ==> crate::realtime::first_french(texts) == Some(i),
        crate::realtime::first_french(texts) matches Some(i) ==> is_first_french(texts, i),
        crate::realtime::first_french(texts) is None ==> forall|k: int|
            0 <= k < texts.len() ==> !((#[trigger] texts[k]).language matches Some(l) && l@
                == "fr"@),
    decreases texts.len(),
{
    if texts.len() > 0 {
        let t = texts.drop_last();
        lemma_first_french(t);
        let n = texts.len() - 1;
        assert forall|k: int| 0 <= k < n implies #[trigger] texts[k] == t[k] by {}
        match crate::realtime::first_french(t) {
            Some(i) => {
                assert(is_first_french(t, i));
                assert(is_first_french(texts, i));
                assert forall|j: int| #[trigger] is_first_french(texts, j) implies j == i by {
                    if j < i {
                        assert(t[j] == texts[j]);
                    }
                }
            },
            None => {
                assert forall|j: int| #[trigger] is_first_french(texts, j) implies j == n by {
                    if j < n {
                        assert(t[j] == texts[j]);
                    }
                }
            },
        }
    }
}

pub(crate) proof fn lemma_in_french(t: TranslatedString)
    ensures
        is_in_french(t, t.french()),
{
    let texts = t.translation@;
    lemma_first_french(texts);
    assert forall|i: int| is_first_french(texts, i) implies t.french() == (
    #[trigger] texts[i]).text by {}
}

/// A text in several languages is told in French: by the first text marked so or,
/// where none is, by the first.
pub proof fn a_text_is_told_in_french(t: &TranslatedString, r: Option<String>)
    requires
        call_ensures(TranslatedString::fr, (t,), r),
    ensures
        is_in_french(*t, r),
{
    lemma_in_french(*t);
}

proof fn lemma_joined_push(parts: Seq<Seq<char>>, y: Seq<char>, sep: Seq<char>)
    requires
        parts.len() > 0,
    ensures
        joined(parts.push(y), sep) == joined(parts, sep) + sep + y,
{
    lemma_each_after_push(parts.drop_first(), y, sep);
    assert(parts.push(y).drop_first() =~= parts.drop_first().push(y));
    assert(joined(parts.push(y), sep) =~= joined(parts, sep) + sep + y);
}

proof fn lemma_each_after_push(parts: Seq<Seq<char>>, y: Seq<char>, sep: Seq<char>)
    ensures
        crate::text::each_after(parts.push(y), sep) == crate::text::each_after(parts, sep) + sep
            + y,
    decreases parts.len(),
{
    let e = Seq::<Seq<char>>::empty();
    if parts.len() == 0 {
        assert(parts.push(y).drop_first() =~= e);
        assert(crate::text::each_after(e, sep) =~= Seq::<char>::empty());
        assert(crate::text::each_after(parts.push(y), sep) =~= crate::text::each_after(parts, sep)
            + sep + y);
    } else {
        assert(parts.push(y).drop_first() =~= parts.drop_first().push(y));
        lemma_each_after_push(parts.drop_first(), y, sep);
        assert(crate::text::each_after(parts.push(y), sep) =~= crate::text::each_after(parts, sep)
            + sep + y);
    }
}

/// Texts without commas that are joined by commas come apart again, in their
/// order.
pub proof fn joined_texts_come_apart(parts: Seq<Seq<char>>)
    requires
        parts.len() > 0,
        forall|i: int| 0 <= i < parts.len() ==> !(#[trigger] parts[i]).contains(','),
    ensures
        pieces(joined(parts, ","@), ',') == parts,
    decreases parts.len(),
{
    reveal_strlit(",");
    assert(","@ =~= seq![',']);
    let n = parts.len() - 1;
    let y = parts[n];
    if n == 0 {
        assert(parts.drop_first() =~= Seq::<Seq<char>>::empty());
        assert(joined(parts, ","@) =~= y);
        crate::text::a_text_behind_a_separator_is_a_piece(Seq::empty(), y, ',');
        assert(parts =~= seq![y]);
    } else {
        let t = parts.drop_last();
        assert(parts =~= t.push(y));
        assert forall|i: int| 0 <= i < t.len() implies !(#[trigger] t[i]).contains(',') by {
            assert(t[i] == parts[i]);
        }
        joined_texts_come_apart(t);
        lemma_joined_push(t, y, ","@);
        let x = joined(t, ","@);
        assert(x + ","@ + y =~= x.push(',') + y);
        crate::text::a_text_behind_a_separator_is_a_piece(x, y, ',');
    }
}

/// Texts are joined with the separator between them: joined by commas, they come
/// apart again.
pub proof fn joining_puts_commas_between(parts: &[String], comma: &str, r: String)
    requires
        comma@ == ","@,
        call_ensures(crate::text::join, (parts, comma), r),
        forall|i: int| 0 <= i < parts@.len() ==> !(#[trigger] parts@[i])@.contains(','),
    ensures
        parts@.len() == 0 ==> r@.len() == 0,
        parts@.len() > 0 ==> pieces(r@, ',') == parts.deep_view(),
{
    let all = parts.deep_view();
    assert(all.len() == parts@.len());
    if parts@.len() > 0 {
        assert forall|i: int| 0 <= i < all.len() implies !(#[trigger] all[i]).contains(',') by {
            assert(all[i] == parts@[i]@);
        }
        joined_texts_come_apart(all);
    }
}

/// The lines that an alert names, where it does.
pub open spec fn names_route(informed: Seq<InformedEntity>, i: int, route_id: Seq<char>) -> bool {
    0 <= i < informed.len() && (informed[i].route_id matches Some(x) && x@ == route_id)
}

/// The stops that an alert names, where it does.
pub open spec fn names_stop(informed: Seq<InformedEntity>, i: int, stop_id: Seq<char>) -> bool {
    0 <= i < informed.len() && (informed[i].stop_id matches Some(x) && x@ == stop_id)
}

/// Whether `agency` is the first that an alert names.
pub open spec fn is_first_agency(informed: Seq<InformedEntity>, agency: Option<String>) -> bool {
    &&& forall|i: int|
        0 <= i < informed.len() && (#[trigger] informed[i]).agency_id is Some && (forall|k: int|
            0 <= k < i ==> (#[trigger] informed[k]).agency_id is None) ==> agency
            == informed[i].agency_id
    &&& (forall|k: int| 0 <= k < informed.len() ==> (#[trigger] informed[k]).agency_id is None)
        ==> agency is None
}

proof fn lemma_first_agency(informed: Seq<InformedEntity>)
    ensures
        is_first_agency(informed, crate::realtime::first_agency(informed)),
    decreases informed.len(),
{
    let agency = crate::realtime::first_agency(informed);
    if informed.len() > 0 && informed[0].agency_id is None {
        let rest = informed.drop_first();
        lemma_first_agency(rest);
        assert forall|i: int|
            0 <= i < informed.len() && (#[trigger] informed[i]).agency_id is Some && (forall|
                k: int,
            |
                0 <= k < i ==> (#[trigger] informed[k]).agency_id is None) implies agency
            == informed[i].agency_id by {
            assert(i > 0);
            assert(rest[i - 1] == informed[i]);
            assert forall|k: int| 0 <= k < i - 1 implies (#[trigger] rest[k]).agency_id is None by {
                assert(rest[k] == informed[k + 1]);
            }
        }
        if forall|k: int| 0 <= k < informed.len() ==> (#[trigger] informed[k]).agency_id is None {
            assert forall|k: int| 0 <= k < rest.len() implies (
            #[trigger] rest[k]).agency_id is None by {
                assert(rest[k] == informed[k + 1]);
            }
        }
    }
}

/// Whether `r` is the record of an alert.
pub open spec fn is_alert_record(
    r: AlertRecord,
    feed_ts: i64,
    captured_at: i64,
    id: String,
    alert: Alert,
) -> bool {
    let informed = alert.informed_entity@;
    &&& r.feed_ts == feed_ts
    &&& r.captured_at == captured_at
    &&& r.alert_id == id
    &&& is_first_agency(informed, r.agency_id)
    &&& r.effect == alert.effect
    &&& r.severity == alert.severity
    &&& r.cause == alert.cause
    &&& alert.header_text matches Some(t) ==> is_in_french(t, r.header_fr)
    &&& alert.header_text is None ==> r.header_fr is None
    &&& alert.description_text matches Some(t) ==> is_in_french(t, r.description_fr)
    &&& alert.description_text is None ==> r.description_fr is None
    &&& alert.active_period@.len() > 0 ==> r.active_from == alert.active_period@[0].start
        && r.active_to == alert.active_period@[0].end
    &&& alert.active_period@.len() == 0 ==> r.active_from is None && r.active_to is None
    &&& (forall|i: int|
        0 <= i < informed.len() && (#[trigger] informed[i]).route_id is Some
            ==> !informed[i].route_id->0@.contains(',')) ==> {
        &&& (exists|i: int, id: Seq<char>| #[trigger] names_route(informed, i, id))
            ==> forall|id: Seq<char>| #[trigger]
            pieces(r.route_ids@, ',').contains(id) <==> exists|i: int| #[trigger]
                names_route(informed, i, id)
        &&& (forall|i: int|
            0 <= i < informed.len() ==> (#[trigger] informed[i]).route_id is None)
            ==> r.route_ids@.len() == 0
        &&& forall|i: int|
            0 <= i < informed.len() && (#[trigger] informed[i]).route_id is Some ==> {
                let at = informed.take(i).filter(|e: InformedEntity| e.route_id is Some).len();
                at < pieces(r.route_ids@, ',').len() && pieces(r.route_ids@, ',')[at as int]
                    == informed[i].route_id->0@
            }
    }
    &&& (forall|i: int|
        0 <= i < informed.len() && (#[trigger] informed[i]).stop_id is Some
            ==> !informed[i].stop_id->0@.contains(',')) ==> {
        &&& (exists|i: int, id: Seq<char>| #[trigger] names_stop(informed, i, id))
            ==> forall|id: Seq<char>| #[trigger]
            pieces(r.stop_ids@, ',').contains(id) <==> exists|i: int| #[trigger]
                names_stop(informed, i, id)
        &&& (forall|i: int| 0 <= i < informed.len() ==> (#[trigger] informed[i]).stop_id is None)
            ==> r.stop_ids@.len() == 0
        &&& forall|i: int|
            0 <= i < informed.len() && (#[trigger] informed[i]).stop_id is Some ==> {
                let at = informed.take(i).filter(|e: InformedEntity| e.stop_id is Some).len();
                at < pieces(r.stop_ids@, ',').len() && pieces(r.stop_ids@, ',')[at as int]
                    == informed[i].stop_id->0@
            }
    }
}

proof fn lemma_filter_at<T>(s: Seq<T>, p: spec_fn(T) -> bool, i: int)
    requires
        0 <= i < s.len(),
        p(s[i]),
    ensures
        s.take(i).filter(p).len() < s.filter(p).len(),
        s.filter(p)[s.take(i).filter(p).len() as int] == s[i],
{
    let front = s.take(i);
    let back = s.skip(i);
    assert(s =~= front + back);
    crate::table::lemma_filter_concat(front, back, p);
    assert(back[0] == s[i]);
    crate::table::lemma_first_of_filter(back, p, 0);
}

proof fn lemma_routes(informed: Seq<InformedEntity>)
    ensures
        forall|id: Seq<char>| #[trigger]
            crate::realtime::informed_routes(informed).contains(id) <==> exists|i: int| #[trigger]
                names_route(informed, i, id),
{
    let p = |i: InformedEntity| i.route_id is Some;
    let kept = informed.filter(p);
    let routes = crate::realtime::informed_routes(informed);
    crate::table::lemma_filter_items(informed, p);
    assert forall|id: Seq<char>| #[trigger] routes.contains(id) <==> exists|i: int| #[trigger]
        names_route(informed, i, id) by {
        if routes.contains(id) {
            let k = choose|k: int| 0 <= k < routes.len() && routes[k] == id;
            assert(p(kept[k]) && informed.contains(kept[k]));
            let i = choose|i: int| 0 <= i < informed.len() && informed[i] == kept[k];
            assert(names_route(informed, i, id));
        }
        if exists|i: int| #[trigger] names_route(informed, i, id) {
            let i = choose|i: int| #[trigger] names_route(informed, i, id);
            assert(p(informed[i]) && informed.contains(informed[i]));
            assert(kept.contains(informed[i]));
            let k = choose|k: int| 0 <= k < kept.len() && kept[k] == informed[i];
            assert(routes[k] == id);
        }
    }
}

proof fn lemma_stops(informed: Seq<InformedEntity>)
    ensures
        forall|id: Seq<char>| #[trigger]
            crate::realtime::informed_stops(informed).contains(id) <==> exists|i: int| #[trigger]
                names_stop(informed, i, id),
{
    let p = |i: InformedEntity| i.stop_id is Some;
    let kept = informed.filter(p);
    let stops = crate::realtime::informed_stops(informed);
    crate::table::lemma_filter_items(informed, p);
    assert forall|id: Seq<char>| #[trigger] stops.contains(id) <==> exists|i: int| #[trigger]
        names_stop(informed, i, id) by {
        if stops.contains(id) {
            let k = choose|k: int| 0 <= k < stops.len() && stops[k] == id;
            assert(p(kept[k]) && informed.contains(kept[k]));
            let i = choose|i: int| 0 <= i < informed.len() && informed[i] == kept[k];
            assert(names_stop(informed, i, id));
        }
        if exists|i: int| #[trigger] names_stop(informed, i, id) {
            let i = choose|i: int| #[trigger] names_stop(informed, i, id);
            assert(p(informed[i]) && informed.contains(informed[i]));
            assert(kept.contains(informed[i]));
            let k = choose|k: int| 0 <= k < kept.len() && kept[k] == informed[i];
            assert(stops[k] == id);
        }
    }
}

proof fn lemma_apart(parts: Seq<Seq<char>>)
    requires
        forall|id: Seq<char>| #[trigger] parts.contains(id) ==> !id.contains(','),
    ensures
        parts.len() > 0 ==> pieces(joined(parts, ","@), ',') == parts,
        parts.len() == 0 ==> joined(parts, ","@).len() == 0,
{
    if parts.len() > 0 {
        assert forall|i: int| 0 <= i < parts.len() implies !(#[trigger] parts[i]).contains(',') by {
            assert(parts.contains(parts[i]));
        }
        joined_texts_come_apart(parts);
    }
}

proof fn lemma_alert_record(r: AlertRecord, feed_ts: i64, captured_at: i64, e: AlertEntity)
    requires
        crate::realtime::is_record_of(r, feed_ts, captured_at, e),
        e.is_kept(),
    ensures
        is_alert_record(r, feed_ts, captured_at, e.id->0, e.alert->0),
{
    let alert = e.alert->0;
    let informed = alert.informed_entity@;
    lemma_first_agency(informed);
    if let Some(t) = alert.header_text {
        lemma_in_french(t);
    }
    if let Some(t) = alert.description_text {
        lemma_in_french(t);
    }
    let routes = crate::realtime::informed_routes(informed);
    let stops = crate::realtime::informed_stops(informed);
    lemma_routes(informed);
    lemma_stops(informed);
    if forall|i: int|
        0 <= i < informed.len() && (#[trigger] informed[i]).route_id is Some
            ==> !informed[i].route_id->0@.contains(',') {
        assert forall|id: Seq<char>| #[trigger] routes.contains(id) implies !id.contains(',') by {
            let i = choose|i: int| #[trigger] names_route(informed, i, id);
            assert(informed[i].route_id is Some);
        }
        lemma_apart(routes);
        let p = |e: InformedEntity| e.route_id is Some;
        assert forall|i: int|
            0 <= i < informed.len() && (#[trigger] informed[i]).route_id is Some implies {
            let at = informed.take(i).filter(|e: InformedEntity| e.route_id is Some).len();
            at < pieces(r.route_ids@, ',').len() && pieces(r.route_ids@, ',')[at as int]
                == informed[i].route_id->0@
        } by {
            lemma_filter_at(informed, p, i);
        }
        if exists|i: int, id: Seq<char>| #[trigger] names_route(informed, i, id) {
            let (i, id) = choose|i: int, id: Seq<char>| #[trigger] names_route(informed, i, id);
            assert(routes.contains(id));
        }
        if forall|i: int| 0 <= i < informed.len() ==> (#[trigger] informed[i]).route_id is None {
            if routes.len() > 0 {
                assert(routes.contains(routes[0]));
                let i = choose|i: int| #[trigger] names_route(informed, i, routes[0]);
                assert(informed[i].route_id is None);
            }
        }
    }
    if forall|i: int|
        0 <= i < informed.len() && (#[trigger] informed[i]).stop_id is Some
            ==> !informed[i].stop_id->0@.contains(',') {
        assert forall|id: Seq<char>| #[trigger] stops.contains(id) implies !id.contains(',') by {
            let i = choose|i: int| #[trigger] names_stop(informed, i, id);
            assert(informed[i].stop_id is Some);
        }
        lemma_apart(stops);
        let p = |e: InformedEntity| e.stop_id is Some;
        assert forall|i: int|
            0 <= i < informed.len() && (#[trigger] informed[i]).stop_id is Some implies {
            let at = informed.take(i).filter(|e: InformedEntity| e.stop_id is Some).len();
            at < pieces(r.stop_ids@, ',').len() && pieces(r.stop_ids@, ',')[at as int]
                == informed[i].stop_id->0@
        } by {
            lemma_filter_at(informed, p, i);
        }
        if exists|i: int, id: Seq<char>| #[trigger] names_stop(informed, i, id) {
            let (i, id) = choose|i: int, id: Seq<char>| #[trigger] names_stop(informed, i, id);
            assert(stops.contains(id));
        }
        if forall|i: int| 0 <= i < informed.len() ==> (#[trigger] informed[i]).stop_id is None {
            if stops.len() > 0 {
                assert(stops.contains(stops[0]));
                let i = choose|i: int| #[trigger] names_stop(informed, i, stops[0]);
                assert(informed[i].stop_id is None);
            }
        }
    }
}

/// Each archived alert is the record of an entity that holds an alert and names
/// it.
pub proof fn a_record_tells_an_alert(
    feed_ts: i64,
    captured_at: i64,
    entities: &[AlertEntity],
    r: Vec<AlertRecord>,
    n: int,
) -> (m: int)
    requires
        call_ensures(alerts_from, (feed_ts, captured_at, entities), r),
        0 <= n < r@.len(),
    ensures
        0 <= m < entities@.len(),
        entities@[m].alert is Some,
        entities@[m].id is Some,
        is_alert_record(
            r@[n],
            feed_ts,
            captured_at,
            entities@[m].id->0,
            entities@[m].alert->0,
        ),
{
    let p = |e: AlertEntity| e.is_kept();
    let kept = entities@.filter(p);
    crate::table::lemma_filter_items(entities@, p);
    assert(kept == crate::realtime::kept_alerts(entities@));
    assert(p(kept[n]) && entities@.contains(kept[n]));
    assert(crate::realtime::is_record_of(r@[n], feed_ts, captured_at, kept[n]));
    lemma_alert_record(r@[n], feed_ts, captured_at, kept[n]);
    choose|m: int| 0 <= m < entities@.len() && entities@[m] == kept[n]
}

/// Every entity that holds an alert and names it is archived.
pub proof fn every_named_alert_is_archived(
    feed_ts: i64,
    captured_at: i64,
    entities: &[AlertEntity],
    r: Vec<AlertRecord>,
    m: int,
) -> (n: int)
    requires
        call_ensures(alerts_from, (feed_ts, captured_at, entities), r),
        0 <= m < entities@.len(),
        entities@[m].alert is Some,
        entities@[m].id is Some,
    ensures
        0 <= n < r@.len(),
        is_alert_record(
            r@[n],
            feed_ts,
            captured_at,
            entities@[m].id->0,
            entities@[m].alert->0,
        ),
{
    let p = |e: AlertEntity| e.is_kept();
    let kept = entities@.filter(p);
    crate::table::lemma_filter_items(entities@, p);
    assert(kept == crate::realtime::kept_alerts(entities@));
    assert(p(entities@[m]) && entities@.contains(entities@[m]));
    assert(kept.contains(entities@[m]));
    let n = choose|n: int| 0 <= n < kept.len() && kept[n] == entities@[m];
    assert(crate::realtime::is_record_of(r@[n], feed_ts, captured_at, kept[n]));
    lemma_alert_record(r@[n], feed_ts, captured_at, kept[n]);
    n
}

} // verus!
