//! Laws of the cycles of capture: what a cycle writes and leaves, and the raw
//! archive.

use crate::archive::{AlertRecord, Archive, Observation};
use crate::calendar::{dashed_date, day_number, is_date};
use crate::laws::stops::has_entry;
use crate::realtime::{
    alerts_from, count_cycle, day_string, gunzipped, observations_from, poll_once, run,
    AlertEntity, Feed, LiveEvent, PollOutcome, PollPlan, RawAppend, RawArchive, RtState,
    TripUpdateEntity, Turn,
};
use vstd::prelude::*;
use vstd::utf8::encode_utf8;

verus! {

/// Whether a date is the UTC date of an instant, in seconds from
/// 1970-01-01T00:00:00.
pub open spec fn is_day_of(y: int, m: int, d: int, secs: int) -> bool {
    is_date(y, m, d) && day_number(y, m, d) == secs / 86_400
}

/// The folder of an instant is its UTC date, written with hyphens; an instant that
/// no date reaches has the folder `unknown`.
pub proof fn a_folder_is_named_by_its_day(secs: i64, r: String, y: int, m: int, d: int)
    requires
        call_ensures(day_string, (secs,), r),
    ensures
        is_day_of(y, m, d, secs as int) && -8_334_601_228_800 <= secs <= 8_210_266_876_799
            ==> r@ == dashed_date(y, m, d),
        secs < -8_334_601_228_800 || secs > 8_210_266_876_799 ==> r@ == "unknown"@,
{
    if is_day_of(y, m, d, secs as int) {
        crate::realtime::a_day_has_one_date(y, m, d);
    }
}

/// Whether something is to be appended under the day of a feed, to the file of its
/// kind: a line, packed so that the file gives it back behind what it held.
pub open spec fn appends_under_its_day(
    r: RawAppend,
    kind: Seq<char>,
    feed_ts: int,
    body: Seq<char>,
    y: int,
    m: int,
    d: int,
) -> bool {
    let line = encode_utf8(body).push(10u8);
    &&& is_day_of(y, m, d, feed_ts) && -8_334_601_228_800 <= feed_ts <= 8_210_266_876_799
        ==> r.day@ == dashed_date(y, m, d)
    &&& r.file@ == kind + ".jsonl.gz"@
    &&& gunzipped(r.bytes@) == Some(line)
    &&& forall|file: Seq<u8>|
        gunzipped(file) is Some ==> #[trigger] gunzipped(file + r.bytes@) == Some(
            gunzipped(file)->0 + line,
        )
}

proof fn lemma_appends(
    r: RawAppend,
    kind: Seq<char>,
    feed_ts: i64,
    body: Seq<char>,
    y: int,
    m: int,
    d: int,
)
    requires
        r.appends(kind, feed_ts, body),
    ensures
        appends_under_its_day(r, kind, feed_ts as int, body, y, m, d),
{
    let line = encode_utf8(body).push(10u8);
    assert(crate::realtime::line_bytes(body) =~= line);
    if is_day_of(y, m, d, feed_ts as int) {
        crate::realtime::a_day_has_one_date(y, m, d);
    }
}

/// What is appended goes under the day of its feed, to the file of its kind, and
/// reads back as the line that was given.
pub proof fn a_raw_line_goes_under_its_day(
    raw: &RawArchive,
    kind: &str,
    feed_ts: i64,
    body: &str,
    r: RawAppend,
    y: int,
    m: int,
    d: int,
)
    requires
        call_ensures(RawArchive::append, (raw, kind, feed_ts, body), r),
    ensures
        appends_under_its_day(r, kind@, feed_ts as int, body@, y, m, d),
{
    lemma_appends(r, kind@, feed_ts, body@, y, m, d);
}

/// A folder is picked exactly where its day lies before the first day that is
/// kept: as many days before today as the retention has. With a retention of 0
/// none is.
pub proof fn folders_past_the_retention_are_picked(
    raw: &RawArchive,
    now: i64,
    names: &[String],
    r: Vec<String>,
    y: int,
    m: int,
    d: int,
    first: (int, int, int),
)
    requires
        call_ensures(RawArchive::prune, (raw, now, names), r),
        is_date(y, m, d),
        0 <= y <= 9999,
        is_day_of(first.0, first.1, first.2, now - raw.retention_days * 86_400),
        0 <= first.0 <= 9999,
        has_entry(names@, dashed_date(y, m, d)),
    ensures
        has_entry(r@, dashed_date(y, m, d)) <==> raw.retention_days != 0 && day_number(y, m, d)
            < day_number(first.0, first.1, first.2),
{
    let name = dashed_date(y, m, d);
    let p = |n: String| raw.is_due(now, n@);
    crate::table::lemma_filter_items(names@, p);
    assert((now - raw.retention_days * 86_400) / 86_400 == now as int / 86_400
        - raw.retention_days);
    crate::realtime::only_days_past_the_retention_are_due(
        *raw,
        now,
        y,
        m,
        d,
        first.0,
        first.1,
        first.2,
    );
    if has_entry(r@, name) {
        let k = choose|k: int| 0 <= k < r@.len() && (#[trigger] r@[k])@ == name;
        assert(p(r@[k]));
    }
    if raw.is_due(now, name) {
        let k = choose|k: int| 0 <= k < names@.len() && (#[trigger] names@[k])@ == name;
        assert(p(names@[k]) && names@.contains(names@[k]));
        assert(r@.contains(names@[k]));
        let j = choose|j: int| 0 <= j < r@.len() && r@[j] == names@[k];
        assert(r@[j]@ == name);
    }
}

/// A folder of any name is picked exactly where the name has ten bytes and comes,
/// as a text, before that of the first day that is kept.
pub proof fn folders_are_picked_by_their_names(
    raw: &RawArchive,
    now: i64,
    names: &[String],
    r: Vec<String>,
    k: int,
    first: (int, int, int),
)
    requires
        call_ensures(RawArchive::prune, (raw, now, names), r),
        raw.retention_days != 0,
        is_day_of(first.0, first.1, first.2, now - raw.retention_days * 86_400),
        now - raw.retention_days * 86_400 >= -8_334_601_228_800,
        now - raw.retention_days * 86_400 <= 8_210_266_876_799,
        0 <= k < names@.len(),
    ensures
        r@.contains(names@[k]) <==> encode_utf8(names@[k]@).len() == 10 && crate::text::text_lt(
            names@[k]@,
            dashed_date(first.0, first.1, first.2),
        ),
{
    let p = |n: String| raw.is_due(now, n@);
    crate::table::lemma_filter_items(names@, p);
    crate::realtime::a_day_has_one_date(first.0, first.1, first.2);
    assert(p(names@[k]) <==> encode_utf8(names@[k]@).len() == 10 && crate::text::text_lt(
        names@[k]@,
        dashed_date(first.0, first.1, first.2),
    ));
    assert(names@.contains(names@[k]));
    if r@.contains(names@[k]) {
        let j = choose|j: int| 0 <= j < r@.len() && r@[j] == names@[k];
        assert(p(r@[j]));
    }
}

/// Only folders that were named are picked, and none whose name has not ten bytes;
/// with a retention of 0 none at all.
pub proof fn only_named_folders_are_picked(
    raw: &RawArchive,
    now: i64,
    names: &[String],
    r: Vec<String>,
    k: int,
)
    requires
        call_ensures(RawArchive::prune, (raw, now, names), r),
    ensures
        raw.retention_days == 0 ==> r@.len() == 0,
        0 <= k < r@.len() ==> names@.contains(r@[k]) && encode_utf8(r@[k]@).len() == 10,
{
    let p = |n: String| raw.is_due(now, n@);
    crate::table::lemma_filter_items(names@, p);
    if raw.retention_days == 0 && r@.len() > 0 {
        assert(p(r@[0]));
    }
    if 0 <= k < r@.len() {
        assert(p(r@[k]));
    }
}

/// The data are as old as the last cycle that succeeded; they are stale where they
/// are older than allowed, or where no cycle ever succeeded.
pub proof fn data_are_as_old_as_the_last_success(
    state: &RtState,
    now: i64,
    allowed: i64,
    age: Option<i64>,
    stale: bool,
)
    requires
        call_ensures(RtState::feed_age_secs, (state, now), age),
        call_ensures(RtState::is_stale, (state, now, allowed), stale),
    ensures
        age is Some <==> state.last_success is Some,
        age is Some ==> age->0 == now - state.last_success->0,
        state.last_success is None ==> stale,
        state.last_success is Some ==> (stale <==> now > state.last_success->0 + allowed),
{
}

/// A cycle that succeeded leaves its time, its feed and its counts, and no message;
/// one that failed leaves its message, and all else as it was. Only the former is
/// told to the subscribers. Every cycle counts, and after each hundred and
/// twentieth the raw archive is purged.
pub proof fn a_turn_takes_note_of_the_cycle(
    state: &mut RtState,
    cycles: u64,
    now: i64,
    cycle: Result<PollOutcome, String>,
    r: Turn,
)
    requires
        call_ensures(run, (state, cycles, now, cycle), r),
    ensures
        cycle matches Ok(o) ==> {
            &&& final(state).last_success == Some(now)
            &&& final(state).last_feed_ts == Some(o.feed_ts)
            &&& final(state).observations_last == o.observations
            &&& final(state).alerts_last == o.alerts
            &&& final(state).last_error is None
            &&& r.event matches Some(e) && e.feed_ts == o.feed_ts && e.observations
                == o.observations && e.alerts == o.alerts
        },
        cycle matches Err(e) ==> {
            &&& final(state).last_success == old(state).last_success
            &&& final(state).last_feed_ts == old(state).last_feed_ts
            &&& final(state).observations_last == old(state).observations_last
            &&& final(state).alerts_last == old(state).alerts_last
            &&& final(state).last_error == Some(e)
            &&& r.event is None
        },
        r.cycles == cycles + 1,
        r.purge <==> exists|n: int| cycles + 1 == #[trigger] (n * 120),
{
    let n = (cycles + 1) / 120;
    assert(cycles + 1 == n * 120 + (cycles + 1) % 120);
    if r.purge {
        assert(cycles + 1 == n * 120);
    }
    if exists|n: int| cycles + 1 == #[trigger] (n * 120) {
        let k = choose|k: int| cycles + 1 == #[trigger] (k * 120);
        assert((k * 120) % 120 == 0);
    }
}

/// Ending a cycle takes the same note of it as a turn does.
pub proof fn ending_a_cycle_takes_note_of_it(
    state: &mut RtState,
    now: i64,
    cycle: Result<PollOutcome, String>,
    r: Option<LiveEvent>,
)
    requires
        call_ensures(RtState::finish_cycle, (state, now, cycle), r),
    ensures
        cycle matches Ok(o) ==> {
            &&& final(state).last_success == Some(now)
            &&& final(state).last_feed_ts == Some(o.feed_ts)
            &&& final(state).observations_last == o.observations
            &&& final(state).alerts_last == o.alerts
            &&& final(state).last_error is None
            &&& r matches Some(e) && e.feed_ts == o.feed_ts && e.observations == o.observations
                && e.alerts == o.alerts
        },
        cycle matches Err(e) ==> {
            &&& final(state).last_success == old(state).last_success
            &&& final(state).last_feed_ts == old(state).last_feed_ts
            &&& final(state).observations_last == old(state).observations_last
            &&& final(state).alerts_last == old(state).alerts_last
            &&& final(state).last_error == Some(e)
            &&& r is None
        },
{
}

/// The cycles are counted one by one.
pub proof fn cycles_are_counted_one_by_one(cycles: u64, r: (u64, bool))
    requires
        call_ensures(count_cycle, (cycles,), r),
    ensures
        r.0 == cycles + 1,
        r.1 <==> (cycles + 1) % 120 == 0,
{
}

/// A cycle writes the observations and the alerts of its feeds, each with the
/// timestamp of its own feed, and both raw lines under the day of the trip updates;
/// its outcome has the numbers of what it writes.
pub proof fn a_cycle_writes_what_its_feeds_tell(
    raw: &RawArchive,
    captured_at: i64,
    trip_updates: &Feed<TripUpdateEntity>,
    alerts: &Feed<AlertEntity>,
    updates_line: &str,
    alerts_line: &str,
    r: PollPlan,
    entities: &[TripUpdateEntity],
    alert_entities: &[AlertEntity],
    observations: Vec<Observation>,
    y: int,
    m: int,
    d: int,
)
    requires
        call_ensures(
            poll_once,
            (raw, captured_at, trip_updates, alerts, updates_line, alerts_line),
            r,
        ),
        entities@ == trip_updates.entity@,
        call_ensures(
            observations_from,
            (trip_updates.header.timestamp, captured_at, entities),
            observations,
        ),
    ensures
        r.observations@ == observations@,
        r.outcome.feed_ts == trip_updates.header.timestamp,
        r.outcome.observations == r.observations@.len(),
        r.outcome.alerts == r.alerts@.len(),
        forall|n: int|
            0 <= n < r.alerts@.len() ==> (#[trigger] r.alerts@[n]).feed_ts
                == alerts.header.timestamp && r.alerts@[n].captured_at == captured_at,
        appends_under_its_day(
            r.raw_trip_updates,
            "trip-update"@,
            trip_updates.header.timestamp as int,
            updates_line@,
            y,
            m,
            d,
        ),
        appends_under_its_day(
            r.raw_alerts,
            "alert"@,
            trip_updates.header.timestamp as int,
            alerts_line@,
            y,
            m,
            d,
        ),
{
    let ts = trip_updates.header.timestamp;
    lemma_appends(r.raw_trip_updates, "trip-update"@, ts, updates_line@, y, m, d);
    lemma_appends(r.raw_alerts, "alert"@, ts, alerts_line@, y, m, d);
    assert forall|n: int| 0 <= n < r.alerts@.len() implies (#[trigger] r.alerts@[n]).feed_ts
        == alerts.header.timestamp && r.alerts@[n].captured_at == captured_at by {
        assert(crate::realtime::is_record_of(
            r.alerts@[n],
            alerts.header.timestamp,
            captured_at,
            crate::realtime::kept_alerts(alerts.entity@)[n],
        ));
    }
}

/// The alerts that a cycle writes tell what those read from its feed do, one by
/// one.
pub proof fn a_cycle_writes_the_alerts_of_its_feed(
    raw: &RawArchive,
    captured_at: i64,
    trip_updates: &Feed<TripUpdateEntity>,
    alerts: &Feed<AlertEntity>,
    updates_line: &str,
    alerts_line: &str,
    r: PollPlan,
    entities: &[AlertEntity],
    records: Vec<AlertRecord>,
    n: int,
)
    requires
        call_ensures(
            poll_once,
            (raw, captured_at, trip_updates, alerts, updates_line, alerts_line),
            r,
        ),
        entities@ == alerts.entity@,
        call_ensures(alerts_from, (alerts.header.timestamp, captured_at, entities), records),
    ensures
        r.alerts@.len() == records@.len(),
        0 <= n < r.alerts@.len() ==> {
            &&& r.alerts@[n].alert_id == records@[n].alert_id
            &&& r.alerts@[n].effect == records@[n].effect
            &&& r.alerts@[n].severity == records@[n].severity
            &&& r.alerts@[n].cause == records@[n].cause
            &&& r.alerts@[n].agency_id == records@[n].agency_id
            &&& r.alerts@[n].route_ids@ == records@[n].route_ids@
            &&& r.alerts@[n].stop_ids@ == records@[n].stop_ids@
            &&& r.alerts@[n].header_fr == records@[n].header_fr
            &&& r.alerts@[n].description_fr == records@[n].description_fr
            &&& r.alerts@[n].active_from == records@[n].active_from
            &&& r.alerts@[n].active_to == records@[n].active_to
        },
{
    let kept = crate::realtime::kept_alerts(entities@);
    if 0 <= n < r.alerts@.len() {
        assert(crate::realtime::is_record_of(
            r.alerts@[n],
            alerts.header.timestamp,
            captured_at,
            kept[n],
        ));
        assert(crate::realtime::is_record_of(
            records@[n],
            alerts.header.timestamp,
            captured_at,
            kept[n],
        ));
    }
}

/// Storing a cycle writes its observations and its alerts, and leaves the links as
/// they were.
pub proof fn storing_writes_observations_and_alerts(
    plan: &PollPlan,
    archive: &mut Archive,
    o: Observation,
    a: AlertRecord,
)
    requires
        old(archive).wf(),
        call_ensures(PollPlan::store, (plan, archive), ()),
    ensures
        final(archive).observations@.contains(o) <==> crate::laws::capture::stays(
            old(archive).observations@,
            plan.observations@,
            |a: Observation, b: Observation| crate::laws::capture::one_sight(a, b),
            o,
        ),
        final(archive).alerts@.contains(a) <==> crate::laws::capture::stays(
            old(archive).alerts@,
            plan.alerts@,
            |a: AlertRecord, b: AlertRecord| crate::laws::capture::one_alert(a, b),
            a,
        ),
        final(archive).alert_trips@ == old(archive).alert_trips@,
{
    crate::archive::archive_keys_are_keys();
    crate::laws::capture::lemma_stays(
        old(archive).observations@,
        plan.observations@,
        crate::archive::same_observation(),
        |a: Observation, b: Observation| crate::laws::capture::one_sight(a, b),
    );
    crate::laws::capture::lemma_stays(
        old(archive).alerts@,
        plan.alerts@,
        crate::archive::same_alert(),
        |a: AlertRecord, b: AlertRecord| crate::laws::capture::one_alert(a, b),
    );
}

/// An archive of raw payloads keeps them for ninety days unless told otherwise.
pub proof fn raw_payloads_are_kept_as_told(root: &str, days: u64, a: RawArchive, b: RawArchive)
    requires
        call_ensures(RawArchive::new, (root,), a),
        call_ensures(RawArchive::with_retention, (a, days), b),
    ensures
        a.root@ == root@,
        a.retention_days == 90,
        b.root@ == root@,
        b.retention_days == days,
{
}

} // verus!
