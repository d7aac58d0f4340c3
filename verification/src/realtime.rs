//! The official real-time feeds: what is kept of them, how a cycle of capture
//! ends, and the raw archive that allows replaying them.

use crate::archive::{AlertRecord, Archive, Observation};
use crate::calendar::{
    dashed_date, day_number, format_date, is_date, utc_date, MAX_SECS, MIN_SECS,
};
use crate::text::{concat, join, joined, same_text, text_before, text_lt};
use std::io::{Read, Write};
use vstd::prelude::*;
use vstd::utf8::encode_utf8;

verus! {

/// The official `trip-update` feed.
pub const DEFAULT_TRIP_UPDATES_URL: &'static str =
    "https://api-management-discovery-production.azure-api.net/api/gtfs/feed/tec/rt/trip-update";

/// The official `alert` feed.
pub const DEFAULT_ALERTS_URL: &'static str =
    "https://api-management-discovery-production.azure-api.net/api/gtfs/feed/tec/rt/alert";

/// The official `vehicle-position` feed.
pub const DEFAULT_VEHICLE_POSITIONS_URL: &'static str =
    "https://api-management-discovery-production.azure-api.net/api/gtfs/feed/tec/rt/vehicle-position";

/// For how many days raw payloads are kept by default. 0 keeps them for ever.
pub const DEFAULT_RAW_RETENTION_DAYS: u64 = 90;

/// How often, in cycles of capture, the raw archive is purged.
pub const PURGE_EVERY: u64 = 120;

pub const SCHEDULED: i64 = 0;

pub const SKIPPED: i64 = 1;

pub const NO_DATA: i64 = 2;

pub const UNSCHEDULED: i64 = 3;

pub const EFFECT_NO_SERVICE: i64 = 1;

pub const EFFECT_REDUCED_SERVICE: i64 = 2;

pub const EFFECT_SIGNIFICANT_DELAYS: i64 = 3;

pub const EFFECT_DETOUR: i64 = 4;

pub const EFFECT_MODIFIED_SERVICE: i64 = 6;

/// A feed: its header and its entities.
#[derive(Debug)]
pub struct Feed<T> {
    pub header: Header,
    pub entity: Vec<T>,
}

/// The header of a feed.
#[derive(Debug)]
pub struct Header {
    pub timestamp: i64,
    pub version: Option<String>,
}

/// An entity of the `trip-update` feed.
#[derive(Debug)]
pub struct TripUpdateEntity {
    pub id: Option<String>,
    pub trip_update: Option<TripUpdate>,
}

/// What is new of a trip.
#[derive(Debug)]
pub struct TripUpdate {
    pub trip: Option<TripDescriptor>,
    pub stop_time_update: Vec<StopTimeUpdate>,
}

/// Which trip an update is about.
#[derive(Debug)]
pub struct TripDescriptor {
    pub trip_id: Option<String>,
    pub route_id: Option<String>,
}

/// What is new of a trip at a stop.
#[derive(Debug)]
pub struct StopTimeUpdate {
    pub stop_sequence: Option<i64>,
    pub stop_id: Option<String>,
    pub arrival: Option<StopTimeEvent>,
    pub departure: Option<StopTimeEvent>,
    pub schedule_relationship: Option<i64>,
}

/// An arrival or a departure: when, in seconds from 1970-01-01T00:00:00 UTC, and
/// how many seconds late.
#[derive(Debug, Clone, Copy, PartialEq, Eq, Structural)]
pub struct StopTimeEvent {
    pub delay: Option<i64>,
    pub time: Option<i64>,
}

/// An entity of the `alert` feed.
#[derive(Debug)]
pub struct AlertEntity {
    pub id: Option<String>,
    pub alert: Option<Alert>,
}

/// A service alert.
#[derive(Debug)]
pub struct Alert {
    pub active_period: Vec<TimeRange>,
    pub informed_entity: Vec<InformedEntity>,
    pub cause: Option<i64>,
    pub effect: Option<i64>,
    pub severity: Option<i64>,
    pub header_text: Option<TranslatedString>,
    pub description_text: Option<TranslatedString>,
}

/// When an alert holds.
#[derive(Debug, Clone, Copy, PartialEq, Eq, Structural)]
pub struct TimeRange {
    pub start: Option<i64>,
    pub end: Option<i64>,
}

/// What an alert is about.
#[derive(Debug)]
pub struct InformedEntity {
    pub agency_id: Option<String>,
    pub route_id: Option<String>,
    pub stop_id: Option<String>,
}

/// A text in several languages.
#[derive(Debug)]
pub struct TranslatedString {
    pub translation: Vec<Translation>,
}

/// A text in one language.
#[derive(Debug)]
pub struct Translation {
    pub language: Option<String>,
    pub text: Option<String>,
}

impl Translation {
    /// Whether the text is marked as French.
    pub open spec fn is_french(self) -> bool {
        self.language matches Some(l) && l@ == "fr"@
    }
}

/// The place of the first French text, if there is one.
pub open spec fn first_french(s: Seq<Translation>) -> Option<int>
    decreases s.len(),
{
    if s.len() == 0 {
        None
    } else {
        match first_french(s.drop_last()) {
            Some(i) => Some(i),
            None => if s.last().is_french() {
                Some(s.len() - 1)
            } else {
                None
            },
        }
    }
}

impl TranslatedString {
    /// The first French text or, where none is French, the first text.
    pub open spec fn french(self) -> Option<String> {
        match first_french(self.translation@) {
            Some(i) => self.translation@[i].text,
            None => if self.translation@.len() > 0 {
                self.translation@[0].text
            } else {
                None
            },
        }
    }

    /// The first French text or, where none is French, the first text.
    pub fn fr(&self) -> (r: Option<String>)
        ensures
            r == self.french(),
    {
        let n: usize = self.translation.len();
        let mut i: usize = 0;
        assert(self.translation@.take(0) =~= Seq::<Translation>::empty());
        while i < n
            invariant
                0 <= i <= n,
                n == self.translation@.len(),
                first_french(self.translation@.take(i as int)) is None,
            decreases n - i,
        {
            let t = &self.translation[i];
            proof {
                assert(self.translation@.take(i + 1).drop_last() =~= self.translation@.take(
                    i as int,
                ));
                assert(self.translation@.take(i + 1).last() == self.translation@[i as int]);
            }
            let french = match &t.language {
                Some(l) => same_text(l.as_str(), "fr"),
                None => false,
            };
            if french {
                proof {
                    lemma_first_french_stays(self.translation@, i + 1);
                }
                return t.text.clone();
            }
            i = i + 1;
        }
        assert(self.translation@.take(n as int) =~= self.translation@);
        if n == 0 {
            None
        } else {
            self.translation[0].text.clone()
        }
    }
}

proof fn lemma_first_french_stays(s: Seq<Translation>, n: int)
    requires
        0 <= n <= s.len(),
        first_french(s.take(n)) is Some,
    ensures
        first_french(s) == first_french(s.take(n)),
    decreases s.len(),
{
    if n == s.len() {
        assert(s.take(n) =~= s);
    } else {
        assert(s.drop_last().take(n) =~= s.take(n));
        lemma_first_french_stays(s.drop_last(), n);
    }
}

impl StopTimeUpdate {
    /// How the stop relates to the timetable.
    pub open spec fn relationship(self) -> i64 {
        match self.schedule_relationship {
            Some(r) => r,
            None => SCHEDULED,
        }
    }

    /// The departure or, where there is none, the arrival.
    pub open spec fn event(self) -> Option<StopTimeEvent> {
        match self.departure {
            Some(e) => Some(e),
            None => self.arrival,
        }
    }

    /// When the event is predicted, in seconds.
    pub open spec fn time(self) -> Option<i64> {
        match self.event() {
            Some(e) => e.time,
            None => None,
        }
    }

    /// How many seconds late the event is.
    pub open spec fn delay(self) -> Option<i64> {
        match self.event() {
            Some(e) => e.delay,
            None => None,
        }
    }

    /// Whether the update names its stop and place, and says something worth
    /// keeping: a prediction, or that the stop is skipped. One marked as
    /// without data says nothing, whatever time it carries.
    pub open spec fn is_kept(self) -> bool {
        &&& self.stop_id is Some
        &&& self.stop_sequence is Some
        &&& self.relationship() != NO_DATA
        &&& self.relationship() == SKIPPED || self.time() is Some
    }

    /// Whether the instants of the update fit in milliseconds.
    pub open spec fn fits(self) -> bool {
        match self.time() {
            Some(t) => {
                &&& i64::MIN <= t * 1000 <= i64::MAX
                &&& match self.delay() {
                    Some(d) => i64::MIN <= d * 1000 <= i64::MAX && i64::MIN <= t * 1000 - d * 1000
                        <= i64::MAX,
                    None => true,
                }
            },
            None => true,
        }
    }
}

/// The observation that a kept update of a trip gives.
pub open spec fn observation_of(
    feed_ts: i64,
    captured_at: i64,
    trip_id: String,
    route_id: Option<String>,
    stu: StopTimeUpdate,
) -> Observation {
    Observation {
        feed_ts,
        captured_at,
        trip_id,
        route_id,
        stop_id: stu.stop_id->0,
        stop_sequence: stu.stop_sequence->0,
        scheduled_ms: match (stu.time(), stu.delay()) {
            (Some(t), Some(d)) => Some((t * 1000 - d * 1000) as i64),
            _ => None,
        },
        predicted_ms: match stu.time() {
            Some(t) => Some((t * 1000) as i64),
            None => None,
        },
        delay_s: stu.delay(),
        schedule_relationship: stu.relationship(),
    }
}

/// The observations that the updates of a trip give, in their order.
pub open spec fn trip_observations(
    feed_ts: i64,
    captured_at: i64,
    trip_id: String,
    route_id: Option<String>,
    updates: Seq<StopTimeUpdate>,
) -> Seq<Observation> {
    updates.filter(|u: StopTimeUpdate| u.is_kept()).map_values(
        |u: StopTimeUpdate| observation_of(feed_ts, captured_at, trip_id, route_id, u),
    )
}

impl TripUpdateEntity {
    /// Whether the entity names the trip that it updates.
    pub open spec fn names_trip(self) -> bool {
        self.trip_update matches Some(tu) && tu.trip matches Some(t) && t.trip_id is Some
    }

    /// The observations that the entity gives: none where it names no trip.
    pub open spec fn observations(self, feed_ts: i64, captured_at: i64) -> Seq<Observation> {
        if self.names_trip() {
            let tu = self.trip_update->0;
            let trip = tu.trip->0;
            trip_observations(
                feed_ts,
                captured_at,
                trip.trip_id->0,
                trip.route_id,
                tu.stop_time_update@,
            )
        } else {
            Seq::empty()
        }
    }

    /// Whether the instants of every kept update fit in milliseconds.
    pub open spec fn fits(self) -> bool {
        self.names_trip() ==> forall|i: int|
            #![trigger self.trip_update->0.stop_time_update@[i]]
            0 <= i < self.trip_update->0.stop_time_update@.len()
                && self.trip_update->0.stop_time_update@[i].is_kept()
                ==> self.trip_update->0.stop_time_update@[i].fits()
    }
}

/// The observations that the entities of a feed give, in their order.
pub open spec fn feed_observations(
    feed_ts: i64,
    captured_at: i64,
    entities: Seq<TripUpdateEntity>,
) -> Seq<Observation>
    decreases entities.len(),
{
    if entities.len() == 0 {
        Seq::empty()
    } else {
        feed_observations(feed_ts, captured_at, entities.drop_last())
            + entities.last().observations(feed_ts, captured_at)
    }
}

/// Whether the instants of every kept update of a feed fit in milliseconds.
pub open spec fn feed_fits(entities: Seq<TripUpdateEntity>) -> bool {
    forall|i: int| 0 <= i < entities.len() ==> (#[trigger] entities[i]).fits()
}

/// Reads the event, the relationship, the time and the delay of an update.
fn read_update(stu: &StopTimeUpdate) -> (r: (i64, Option<i64>, Option<i64>))
    ensures
        r.0 == stu.relationship(),
        r.1 == stu.time(),
        r.2 == stu.delay(),
{
    let relationship: i64 = match stu.schedule_relationship {
        Some(x) => x,
        None => SCHEDULED,
    };
    let event: Option<StopTimeEvent> = match stu.departure {
        Some(e) => Some(e),
        None => stu.arrival,
    };
    match event {
        Some(e) => (relationship, e.time, e.delay),
        None => (relationship, None, None),
    }
}

/// Whether a number of seconds fits in milliseconds.
fn fits_in_ms(secs: i64) -> (r: bool)
    ensures
        r == (i64::MIN <= secs * 1000 <= i64::MAX),
{
    let ms: i128 = secs as i128 * 1000;
    i64::MIN as i128 <= ms && ms <= i64::MAX as i128
}

/// Whether the instants of a feed fit in milliseconds: the condition of
/// `observations_from`.
pub fn instants_fit(entities: &[TripUpdateEntity]) -> (r: bool)
    ensures
        r == feed_fits(entities@),
{
    let mut i: usize = 0;
    while i < entities.len()
        invariant
            0 <= i <= entities@.len(),
            forall|k: int| 0 <= k < i ==> (#[trigger] entities@[k]).fits(),
        decreases entities@.len() - i,
    {
        let e = &entities[i];
        if let Some(tu) = &e.trip_update {
            if let Some(trip) = &tu.trip {
                if trip.trip_id.is_some() {
                    let updates = &tu.stop_time_update;
                    let mut j: usize = 0;
                    while j < updates.len()
                        invariant
                            0 <= j <= updates@.len(),
                            0 <= i < entities@.len(),
                            *e == entities@[i as int],
                            e.names_trip(),
                            *updates == e.trip_update->0.stop_time_update,
                            forall|k: int|
                                0 <= k < j && (#[trigger] updates@[k]).is_kept()
                                    ==> updates@[k].fits(),
                        decreases updates@.len() - j,
                    {
                        let stu = &updates[j];
                        let (relationship, time, delay) = read_update(stu);
                        if stu.stop_id.is_some() && stu.stop_sequence.is_some() && relationship
                            != NO_DATA && (relationship == SKIPPED || time.is_some()) {
                            let fit = match (time, delay) {
                                (Some(t), Some(d)) => {
                                    fits_in_ms(t) && fits_in_ms(d) && {
                                        let ms: i128 = t as i128 * 1000 - d as i128 * 1000;
                                        i64::MIN as i128 <= ms && ms <= i64::MAX as i128
                                    }
                                },
                                (Some(t), None) => fits_in_ms(t),
                                (None, _) => true,
                            };
                            if !fit {
                                assert(!e.trip_update->0.stop_time_update@[j as int].fits());
                                assert(!entities@[i as int].fits());
                                return false;
                            }
                        }
                        j = j + 1;
                    }
                }
            }
        }
        assert(entities@[i as int].fits());
        i = i + 1;
    }
    true
}

/// The observations worth archiving of a `trip-update` feed: those with a
/// prediction, and the stops that are skipped. Stops without data are left out.
pub fn observations_from(feed_ts: i64, captured_at: i64, entities: &[TripUpdateEntity]) -> (r: Vec<
    Observation,
>)
    requires
        feed_fits(entities@),
    ensures
        r@ == feed_observations(feed_ts, captured_at, entities@),
{
    let mut out: Vec<Observation> = Vec::new();
    let mut i: usize = 0;
    assert(entities@.take(0) =~= Seq::<TripUpdateEntity>::empty());
    while i < entities.len()
        invariant
            0 <= i <= entities@.len(),
            feed_fits(entities@),
            out@ == feed_observations(feed_ts, captured_at, entities@.take(i as int)),
        decreases entities@.len() - i,
    {
        let e = &entities[i];
        let ghost before = out@;
        proof {
            assert(entities@.take(i + 1).drop_last() =~= entities@.take(i as int));
            assert(entities@.take(i + 1).last() == *e);
            assert(e.fits());
        }
        if let Some(tu) = &e.trip_update {
            if let Some(trip) = &tu.trip {
                if let Some(trip_id) = &trip.trip_id {
                    let updates = &tu.stop_time_update;
                    let mut j: usize = 0;
                    assert(updates@.take(0) =~= Seq::<StopTimeUpdate>::empty());
                    assert(out@ =~= before + trip_observations(
                        feed_ts,
                        captured_at,
                        *trip_id,
                        trip.route_id,
                        updates@.take(0),
                    )) by {
                        reveal(Seq::filter);
                    }
                    while j < updates.len()
                        invariant
                            0 <= j <= updates@.len(),
                            e.fits(),
                            e.names_trip(),
                            *updates == e.trip_update->0.stop_time_update,
                            out@ == before + trip_observations(
                                feed_ts,
                                captured_at,
                                *trip_id,
                                trip.route_id,
                                updates@.take(j as int),
                            ),
                        decreases updates@.len() - j,
                    {
                        let stu = &updates[j];
                        proof {
                            assert(updates@.take(j + 1).drop_last() =~= updates@.take(j as int));
                            assert(updates@.take(j + 1).last() == *stu);
                            reveal(Seq::filter);
                        }
                        let (relationship, time, delay_s) = read_update(stu);
                        if let Some(stop_id) = &stu.stop_id {
                            if let Some(stop_sequence) = stu.stop_sequence {
                                if relationship != NO_DATA && (relationship == SKIPPED
                                    || time.is_some()) {
                                    assert(e.trip_update->0.stop_time_update@[j as int].fits());
                                    let predicted_ms: Option<i64> = match time {
                                        Some(t) => Some(t * 1000),
                                        None => None,
                                    };
                                    let scheduled_ms: Option<i64> = match (predicted_ms, delay_s) {
                                        (Some(p), Some(d)) => Some(p - d * 1000),
                                        _ => None,
                                    };
                                    out.push(
                                        Observation {
                                            feed_ts,
                                            captured_at,
                                            trip_id: trip_id.clone(),
                                            route_id: trip.route_id.clone(),
                                            stop_id: stop_id.clone(),
                                            stop_sequence,
                                            scheduled_ms,
                                            predicted_ms,
                                            delay_s,
                                            schedule_relationship: relationship,
                                        },
                                    );
                                }
                            }
                        }
                        assert(out@ =~= before + trip_observations(
                            feed_ts,
                            captured_at,
                            *trip_id,
                            trip.route_id,
                            updates@.take(j + 1),
                        ));
                        j = j + 1;
                    }
                    assert(updates@.take(updates@.len() as int) =~= updates@);
                }
            }
        }
        assert(out@ =~= before + e.observations(feed_ts, captured_at));
        i = i + 1;
    }
    assert(entities@.take(entities@.len() as int) =~= entities@);
    out
}


impl AlertEntity {
    /// Whether the entity holds an alert and names it.
    pub open spec fn is_kept(self) -> bool {
        self.alert is Some && self.id is Some
    }
}

/// The entities that hold an alert and name it, in their order.
pub open spec fn kept_alerts(entities: Seq<AlertEntity>) -> Seq<AlertEntity> {
    entities.filter(|e: AlertEntity| e.is_kept())
}

/// The first agency that an alert names.
pub open spec fn first_agency(informed: Seq<InformedEntity>) -> Option<String>
    decreases informed.len(),
{
    if informed.len() == 0 {
        None
    } else if informed[0].agency_id is Some {
        informed[0].agency_id
    } else {
        first_agency(informed.drop_first())
    }
}

/// The routes that an alert names, in their order.
pub open spec fn informed_routes(informed: Seq<InformedEntity>) -> Seq<Seq<char>> {
    informed.filter(|i: InformedEntity| i.route_id is Some).map_values(
        |i: InformedEntity| i.route_id->0@,
    )
}

/// The stops that an alert names, in their order.
pub open spec fn informed_stops(informed: Seq<InformedEntity>) -> Seq<Seq<char>> {
    informed.filter(|i: InformedEntity| i.stop_id is Some).map_values(
        |i: InformedEntity| i.stop_id->0@,
    )
}

/// The French text, if there is a text.
pub open spec fn french_of(text: Option<TranslatedString>) -> Option<String> {
    match text {
        Some(t) => t.french(),
        None => None,
    }
}

/// Whether `r` is the record that a kept entity gives: routes and stops joined
/// by commas, the texts in French, and the first period.
pub open spec fn is_record_of(
    r: AlertRecord,
    feed_ts: i64,
    captured_at: i64,
    e: AlertEntity,
) -> bool {
    let alert = e.alert->0;
    let period = alert.active_period@;
    &&& r.feed_ts == feed_ts
    &&& r.captured_at == captured_at
    &&& r.alert_id == e.id->0
    &&& r.agency_id == first_agency(alert.informed_entity@)
    &&& r.effect == alert.effect
    &&& r.severity == alert.severity
    &&& r.cause == alert.cause
    &&& r.route_ids@ == joined(informed_routes(alert.informed_entity@), ","@)
    &&& r.stop_ids@ == joined(informed_stops(alert.informed_entity@), ","@)
    &&& r.header_fr == french_of(alert.header_text)
    &&& r.description_fr == french_of(alert.description_text)
    &&& r.active_from == (if period.len() > 0 {
        period[0].start
    } else {
        None
    })
    &&& r.active_to == (if period.len() > 0 {
        period[0].end
    } else {
        None
    })
}

fn agency_of(informed: &[InformedEntity]) -> (r: Option<String>)
    ensures
        r == first_agency(informed@),
{
    let mut i: usize = 0;
    assert(informed@.skip(0) =~= informed@);
    while i < informed.len()
        invariant
            0 <= i <= informed@.len(),
            first_agency(informed@) == first_agency(informed@.skip(i as int)),
        decreases informed@.len() - i,
    {
        assert(informed@.skip(i as int)[0] == informed@[i as int]);
        assert(informed@.skip(i as int).drop_first() =~= informed@.skip(i + 1));
        if informed[i].agency_id.is_some() {
            return informed[i].agency_id.clone();
        }
        i = i + 1;
    }
    None
}

fn routes_of(informed: &[InformedEntity]) -> (r: Vec<String>)
    ensures
        r.deep_view() == informed_routes(informed@),
{
    let mut out: Vec<String> = Vec::new();
    let mut i: usize = 0;
    proof {
        reveal(Seq::filter);
        assert(informed@.take(0) =~= Seq::<InformedEntity>::empty());
        assert(out.deep_view() =~= informed_routes(informed@.take(0)));
    }
    while i < informed.len()
        invariant
            0 <= i <= informed@.len(),
            out.deep_view() == informed_routes(informed@.take(i as int)),
        decreases informed@.len() - i,
    {
        proof {
            reveal(Seq::filter);
            assert(informed@.take(i + 1).drop_last() =~= informed@.take(i as int));
            assert(informed@.take(i + 1).last() == informed@[i as int]);
        }
        let ghost before = out.deep_view();
        if let Some(id) = &informed[i].route_id {
            out.push(id.clone());
            assert(out.deep_view() =~= before.push(id@));
        }
        assert(out.deep_view() =~= informed_routes(informed@.take(i + 1)));
        i = i + 1;
    }
    assert(informed@.take(informed@.len() as int) =~= informed@);
    out
}

fn stops_of(informed: &[InformedEntity]) -> (r: Vec<String>)
    ensures
        r.deep_view() == informed_stops(informed@),
{
    let mut out: Vec<String> = Vec::new();
    let mut i: usize = 0;
    proof {
        reveal(Seq::filter);
        assert(informed@.take(0) =~= Seq::<InformedEntity>::empty());
        assert(out.deep_view() =~= informed_stops(informed@.take(0)));
    }
    while i < informed.len()
        invariant
            0 <= i <= informed@.len(),
            out.deep_view() == informed_stops(informed@.take(i as int)),
        decreases informed@.len() - i,
    {
        proof {
            reveal(Seq::filter);
            assert(informed@.take(i + 1).drop_last() =~= informed@.take(i as int));
            assert(informed@.take(i + 1).last() == informed@[i as int]);
        }
        let ghost before = out.deep_view();
        if let Some(id) = &informed[i].stop_id {
            out.push(id.clone());
            assert(out.deep_view() =~= before.push(id@));
        }
        assert(out.deep_view() =~= informed_stops(informed@.take(i + 1)));
        i = i + 1;
    }
    assert(informed@.take(informed@.len() as int) =~= informed@);
    out
}

fn french_text(text: &Option<TranslatedString>) -> (r: Option<String>)
    ensures
        r == french_of(*text),
{
    match text {
        Some(t) => t.fr(),
        None => None,
    }
}

/// Whether `records` are those of the entities that hold an alert and name it,
/// one each, in their order.
pub open spec fn are_records(
    records: Seq<AlertRecord>,
    feed_ts: i64,
    captured_at: i64,
    entities: Seq<AlertEntity>,
) -> bool {
    &&& records.len() == kept_alerts(entities).len()
    &&& forall|i: int|
        0 <= i < records.len() ==> is_record_of(
            #[trigger] records[i],
            feed_ts,
            captured_at,
            kept_alerts(entities)[i],
        )
}

/// The alerts worth archiving of an `alert` feed: those that have a name.
pub fn alerts_from(feed_ts: i64, captured_at: i64, entities: &[AlertEntity]) -> (r: Vec<
    AlertRecord,
>)
    ensures
        are_records(r@, feed_ts, captured_at, entities@),
{
    let mut out: Vec<AlertRecord> = Vec::new();
    let mut i: usize = 0;
    proof {
        reveal(Seq::filter);
        assert(entities@.take(0) =~= Seq::<AlertEntity>::empty());
    }
    while i < entities.len()
        invariant
            0 <= i <= entities@.len(),
            out@.len() == kept_alerts(entities@.take(i as int)).len(),
            forall|k: int|
                0 <= k < out@.len() ==> is_record_of(
                    #[trigger] out@[k],
                    feed_ts,
                    captured_at,
                    kept_alerts(entities@.take(i as int))[k],
                ),
        decreases entities@.len() - i,
    {
        let e = &entities[i];
        proof {
            reveal(Seq::filter);
            assert(entities@.take(i + 1).drop_last() =~= entities@.take(i as int));
            assert(entities@.take(i + 1).last() == *e);
        }
        if let Some(alert) = &e.alert {
            if let Some(alert_id) = &e.id {
                let has_period = alert.active_period.len() > 0;
                let active_from: Option<i64> = if has_period {
                    alert.active_period[0].start
                } else {
                    None
                };
                let active_to: Option<i64> = if has_period {
                    alert.active_period[0].end
                } else {
                    None
                };
                let route_ids = routes_of(&alert.informed_entity);
                let stop_ids = stops_of(&alert.informed_entity);
                out.push(
                    AlertRecord {
                        feed_ts,
                        captured_at,
                        alert_id: alert_id.clone(),
                        agency_id: agency_of(&alert.informed_entity),
                        effect: alert.effect,
                        severity: alert.severity,
                        cause: alert.cause,
                        route_ids: join(&route_ids, ","),
                        stop_ids: join(&stop_ids, ","),
                        header_fr: french_text(&alert.header_text),
                        description_fr: french_text(&alert.description_text),
                        active_from,
                        active_to,
                    },
                );
            }
        }
        i = i + 1;
    }
    assert(entities@.take(entities@.len() as int) =~= entities@);
    out
}

// The raw archive.

/// The bytes that a gzip file holds: those of all its members, one after the
/// other. None where the file is no such file.
pub uninterp spec fn gunzipped(file: Seq<u8>) -> Option<Seq<u8>>;

/// Some bytes, if any, as a sequence.
pub open spec fn bytes_of(data: Option<Vec<u8>>) -> Option<Seq<u8>> {
    match data {
        Some(v) => Some(v@),
        None => None,
    }
}

/// Packs bytes into one gzip member.
///
/// Calls `flate2::write::GzEncoder`. What it writes is a gzip file, and stays
/// one where it is appended to a gzip file: reading gives the bytes back, after
/// those that the file held. Which of the possible packings it picks is left
/// open: the packer may choose by the machine it runs on.
#[verifier::external_body]
fn gzip(data: &[u8]) -> (r: Vec<u8>)
    ensures
        gunzipped(r@) == Some(data@),
        forall|file: Seq<u8>|
            gunzipped(file) is Some ==> #[trigger] gunzipped(file + r@) == Some(
                gunzipped(file)->0 + data@,
            ),
{
    let mut encoder = flate2::write::GzEncoder::new(Vec::new(), flate2::Compression::fast());
    encoder.write_all(data).unwrap();
    encoder.finish().unwrap()
}

/// Unpacks a gzip file, all members of it.
///
/// Calls `flate2::read::MultiGzDecoder`, which reads one member after the other
/// and fails where what follows is none. The result depends on the bytes alone.
#[verifier::external_body]
fn gunzip(file: &[u8]) -> (r: Option<Vec<u8>>)
    ensures
        bytes_of(r) == gunzipped(file@),
{
    let mut data = Vec::new();
    flate2::read::MultiGzDecoder::new(file).read_to_end(&mut data).ok().map(|_| data)
}

/// The date of the day with number `n`.
pub open spec fn date_of_day(n: int) -> (int, int, int) {
    choose|t: (int, int, int)| #[trigger] is_date(t.0, t.1, t.2) && day_number(t.0, t.1, t.2) == n
}

/// A day has one date.
pub proof fn a_day_has_one_date(y: int, m: int, d: int)
    requires
        is_date(y, m, d),
    ensures
        date_of_day(day_number(y, m, d)) == (y, m, d),
{
    let n = day_number(y, m, d);
    let w = (y, m, d);
    assert(is_date(w.0, w.1, w.2) && day_number(w.0, w.1, w.2) == n);
    let t = date_of_day(n);
    crate::calendar::day_numbers_follow_the_calendar(y, m, d, t.0, t.1, t.2);
    crate::calendar::day_numbers_follow_the_calendar(t.0, t.1, t.2, y, m, d);
}

/// The name of the folder for an instant: its UTC day, or `unknown` where the
/// instant has no date.
pub open spec fn day_text(unix_secs: int) -> Seq<char> {
    if MIN_SECS <= unix_secs <= MAX_SECS {
        let date = date_of_day(unix_secs / 86_400);
        dashed_date(date.0, date.1, date.2)
    } else {
        "unknown"@
    }
}

/// The name of the folder for an instant: its UTC day, or `unknown` where the
/// instant has no date.
pub fn day_string(unix_secs: i64) -> (r: String)
    ensures
        r@ == day_text(unix_secs as int),
{
    match utc_date(unix_secs) {
        Some((year, month, day)) => {
            proof {
                a_day_has_one_date(year as int, month as int, day as int);
            }
            format_date(year, month, day, "%Y-%m-%d")
        },
        None => "unknown".to_string(),
    }
}

/// Keeps the raw payloads, gzipped: under `root` one folder a day, in it one
/// file of lines for each feed. Allows reading them again without asking for
/// them again.
#[derive(Debug)]
pub struct RawArchive {
    pub root: String,
    pub retention_days: u64,
}

impl Clone for RawArchive {
    fn clone(&self) -> (r: Self)
        ensures
            r == *self,
    {
        RawArchive { root: self.root.clone(), retention_days: self.retention_days }
    }
}

/// What has to be appended to the raw archive: bytes, to a file in a folder
/// under the root.
#[derive(Debug)]
pub struct RawAppend {
    pub day: String,
    pub file: String,
    pub bytes: Vec<u8>,
}

impl RawAppend {
    /// Whether this appends the line `body` for `kind` under the day of `feed_ts`.
    pub open spec fn appends(self, kind: Seq<char>, feed_ts: i64, body: Seq<char>) -> bool {
        &&& self.day@ == day_text(feed_ts as int)
        &&& self.file@ == kind + ".jsonl.gz"@
        &&& appends_line(self.bytes@, body)
    }
}

/// The bytes of a line: its text and a line feed.
pub open spec fn line_bytes(body: Seq<char>) -> Seq<u8> {
    encode_utf8(body) + seq![10u8]
}

/// Whether `bytes`, as a file, hold the line, and appended to a file add it.
pub open spec fn appends_line(bytes: Seq<u8>, body: Seq<char>) -> bool {
    &&& gunzipped(bytes) == Some(line_bytes(body))
    &&& forall|file: Seq<u8>|
        gunzipped(file) is Some ==> #[trigger] gunzipped(file + bytes) == Some(
            gunzipped(file)->0 + line_bytes(body),
        )
}

/// The first second that is kept at `now`.
pub open spec fn cutoff(now: i64, retention_days: u64) -> int {
    now - retention_days * 86_400
}

impl RawArchive {
    /// An archive under `root` that keeps payloads for the default time.
    pub fn new(root: &str) -> (r: Self)
        ensures
            r.root@ == root@,
            r.retention_days == DEFAULT_RAW_RETENTION_DAYS,
    {
        RawArchive { root: root.to_string(), retention_days: DEFAULT_RAW_RETENTION_DAYS }
    }

    /// The same archive, keeping payloads for `days` days. 0 keeps them for ever.
    pub fn with_retention(self, days: u64) -> (r: Self)
        ensures
            r.root == self.root,
            r.retention_days == days,
    {
        RawArchive { root: self.root, retention_days: days }
    }

    /// Appends a line for `kind` (`trip-update`, `alert`): says which bytes go to
    /// the end of which file of which folder.
    pub fn append(&self, kind: &str, feed_ts: i64, line_body: &str) -> (r: RawAppend)
        ensures
            r.appends(kind@, feed_ts, line_body@),
    {
        let body = line_body.as_bytes();
        let mut line: Vec<u8> = Vec::new();
        let mut i: usize = 0;
        assert(line@ =~= body@.take(0));
        while i < body.len()
            invariant
                0 <= i <= body@.len(),
                line@ == body@.take(i as int),
            decreases body@.len() - i,
        {
            line.push(body[i]);
            assert(line@ =~= body@.take(i + 1));
            i = i + 1;
        }
        line.push(10);
        assert(line@ =~= line_bytes(line_body@));
        RawAppend {
            day: day_string(feed_ts),
            file: concat(kind, ".jsonl.gz"),
            bytes: gzip(&line),
        }
    }

    /// Whether the folder `name` is to go at `now`: it has the length of a day's
    /// name and comes before the day at which keeping starts.
    pub open spec fn is_due(self, now: i64, name: Seq<char>) -> bool {
        &&& self.retention_days != 0
        &&& cutoff(now, self.retention_days) >= MIN_SECS
        &&& encode_utf8(name).len() == 10
        &&& text_lt(name, day_text(cutoff(now, self.retention_days)))
    }

    /// Picks, from the names of the folders under the root, those that are older
    /// than the retention. Where keeping starts before any date, none is.
    pub fn prune(&self, now: i64, names: &[String]) -> (r: Vec<String>)
        ensures
            r@ == names@.filter(|n: String| self.is_due(now, n@)),
    {
        let mut due: Vec<String> = Vec::new();
        let keep_from: i128 = now as i128 - self.retention_days as i128 * 86_400;
        let ghost p = |n: String| self.is_due(now, n@);
        proof {
            crate::table::lemma_filter_all(names@, p);
        }
        if self.retention_days == 0 || keep_from < MIN_SECS as i128 {
            return due;
        }
        let first_day = if keep_from <= MAX_SECS as i128 {
            day_string(keep_from as i64)
        } else {
            "unknown".to_string()
        };
        let mut i: usize = 0;
        proof {
            reveal(Seq::filter);
            assert(names@.take(0) =~= Seq::<String>::empty());
        }
        while i < names.len()
            invariant
                0 <= i <= names@.len(),
                p == (|n: String| self.is_due(now, n@)),
                self.retention_days != 0,
                cutoff(now, self.retention_days) >= MIN_SECS,
                first_day@ == day_text(cutoff(now, self.retention_days)),
                due@ == names@.take(i as int).filter(p),
            decreases names@.len() - i,
        {
            let name = names[i].as_str();
            proof {
                reveal(Seq::filter);
                assert(names@.take(i + 1).drop_last() =~= names@.take(i as int));
                assert(names@.take(i + 1).last() == names@[i as int]);
            }
            if name.as_bytes().len() == 10 && text_before(name, &first_day) {
                due.push(names[i].clone());
            }
            i = i + 1;
        }
        assert(names@.take(names@.len() as int) =~= names@);
        due
    }

    /// What a raw file holds, all lines of it. None where the file is damaged.
    pub fn read_back(file: &[u8]) -> (r: Option<Vec<u8>>)
        ensures
            bytes_of(r) == gunzipped(file@),
    {
        gunzip(file)
    }
}

/// Where the capture stands.
#[derive(Debug)]
pub struct RtState {
    /// The last cycle that succeeded, in seconds from 1970-01-01T00:00:00 UTC.
    pub last_success: Option<i64>,
    /// The timestamp of the official feed of that cycle.
    pub last_feed_ts: Option<i64>,
    pub observations_last: usize,
    pub alerts_last: usize,
    pub last_error: Option<String>,
}

impl Default for RtState {
    fn default() -> (r: Self)
        ensures
            r == (RtState {
                last_success: None,
                last_feed_ts: None,
                observations_last: 0,
                alerts_last: 0,
                last_error: None,
            }),
    {
        RtState {
            last_success: None,
            last_feed_ts: None,
            observations_last: 0,
            alerts_last: 0,
            last_error: None,
        }
    }
}

/// What is told to the subscribers after each cycle that succeeded: there is
/// news, and a status can be computed again.
#[derive(Debug, Clone, Copy, PartialEq, Eq, Structural)]
pub struct LiveEvent {
    pub feed_ts: i64,
    pub observations: usize,
    pub alerts: usize,
}

impl RtState {
    /// The age of the data at `now`, in seconds, where there is data.
    pub open spec fn age(self, now: i64) -> Option<int> {
        match self.last_success {
            Some(t) => Some(now - t),
            None => None,
        }
    }

    /// Whether the age at `now` fits in an `i64`.
    pub open spec fn age_fits(self, now: i64) -> bool {
        self.age(now) matches Some(a) ==> i64::MIN <= a <= i64::MAX
    }

    /// The age of the data at `now`, in seconds, where there is data.
    pub fn feed_age_secs(&self, now: i64) -> (r: Option<i64>)
        requires
            self.age_fits(now),
        ensures
            r is Some <==> self.age(now) is Some,
            r matches Some(a) ==> a == self.age(now)->0,
    {
        match self.last_success {
            Some(t) => Some(now - t),
            None => None,
        }
    }

    /// Whether the data are older than `stale_after` seconds, or missing.
    pub fn is_stale(&self, now: i64, stale_after: i64) -> (r: bool)
        requires
            self.age_fits(now),
        ensures
            r == match self.age(now) {
                Some(a) => a > stale_after,
                None => true,
            },
    {
        match self.feed_age_secs(now) {
            Some(age) => age > stale_after,
            None => true,
        }
    }
}

/// Where the feeds are, and how many seconds lie between two cycles.
#[derive(Debug)]
pub struct RtConfig {
    pub trip_updates_url: String,
    pub alerts_url: String,
    pub poll_interval: u64,
}

impl Clone for RtConfig {
    fn clone(&self) -> (r: Self)
        ensures
            r == *self,
    {
        RtConfig {
            trip_updates_url: self.trip_updates_url.clone(),
            alerts_url: self.alerts_url.clone(),
            poll_interval: self.poll_interval,
        }
    }
}

impl Default for RtConfig {
    fn default() -> (r: Self)
        ensures
            r.trip_updates_url@ == DEFAULT_TRIP_UPDATES_URL@,
            r.alerts_url@ == DEFAULT_ALERTS_URL@,
            r.poll_interval == 30,
    {
        RtConfig {
            trip_updates_url: DEFAULT_TRIP_UPDATES_URL.to_string(),
            alerts_url: DEFAULT_ALERTS_URL.to_string(),
            poll_interval: 30,
        }
    }
}

/// What a cycle brought.
#[derive(Debug, Clone, Copy, PartialEq, Eq, Structural)]
pub struct PollOutcome {
    pub feed_ts: i64,
    pub observations: usize,
    pub alerts: usize,
}

/// All that a cycle has to write: the two raw lines, in this order, then the
/// observations and the alerts.
#[derive(Debug)]
pub struct PollPlan {
    pub outcome: PollOutcome,
    pub raw_trip_updates: RawAppend,
    pub raw_alerts: RawAppend,
    pub observations: Vec<Observation>,
    pub alerts: Vec<AlertRecord>,
}

/// A cycle, from the feeds that were fetched at `captured_at` and the lines
/// that hold them: what is to be written, and what the cycle brought. Both raw
/// lines go under the day of the `trip-update` feed.
pub fn poll_once(
    raw: &RawArchive,
    captured_at: i64,
    trip_updates: &Feed<TripUpdateEntity>,
    alerts: &Feed<AlertEntity>,
    trip_updates_line: &str,
    alerts_line: &str,
) -> (r: PollPlan)
    requires
        feed_fits(trip_updates.entity@),
    ensures
        r.outcome.feed_ts == trip_updates.header.timestamp,
        r.outcome.observations == r.observations@.len(),
        r.outcome.alerts == r.alerts@.len(),
        r.raw_trip_updates.appends(
            "trip-update"@,
            trip_updates.header.timestamp,
            trip_updates_line@,
        ),
        r.raw_alerts.appends("alert"@, trip_updates.header.timestamp, alerts_line@),
        r.observations@ == feed_observations(
            trip_updates.header.timestamp,
            captured_at,
            trip_updates.entity@,
        ),
        are_records(r.alerts@, alerts.header.timestamp, captured_at, alerts.entity@),
{
    let feed_ts = trip_updates.header.timestamp;
    let observations = observations_from(feed_ts, captured_at, &trip_updates.entity);
    let records = alerts_from(alerts.header.timestamp, captured_at, &alerts.entity);
    PollPlan {
        outcome: PollOutcome {
            feed_ts,
            observations: observations.len(),
            alerts: records.len(),
        },
        raw_trip_updates: raw.append("trip-update", feed_ts, trip_updates_line),
        raw_alerts: raw.append("alert", feed_ts, alerts_line),
        observations,
        alerts: records,
    }
}

impl PollPlan {
    /// Writes the observations and the alerts of a cycle to the archive.
    pub fn store(&self, archive: &mut Archive)
        requires
            old(archive).wf(),
        ensures
            final(archive).wf(),
            final(archive).observations@ == crate::table::all_written(
                old(archive).observations@,
                self.observations@,
                crate::archive::same_observation(),
            ),
            final(archive).alerts@ == crate::table::all_written(
                old(archive).alerts@,
                self.alerts@,
                crate::archive::same_alert(),
            ),
            final(archive).alert_trips@ == old(archive).alert_trips@,
    {
        archive.insert_observations(&self.observations);
        archive.insert_alerts(&self.alerts);
    }
}

/// The event that a cycle gives: one with its three numbers where it succeeded,
/// none where it failed.
pub open spec fn event_of(cycle: Result<PollOutcome, String>) -> Option<LiveEvent> {
    match cycle {
        Ok(o) => Some(
            LiveEvent { feed_ts: o.feed_ts, observations: o.observations, alerts: o.alerts },
        ),
        Err(_) => None,
    }
}

impl RtState {
    /// The state after a cycle that brought `outcome` and ended at `now`, or
    /// after one that failed with a message.
    pub open spec fn after_cycle(self, now: i64, cycle: Result<PollOutcome, String>) -> RtState {
        match cycle {
            Ok(o) => RtState {
                last_success: Some(now),
                last_feed_ts: Some(o.feed_ts),
                observations_last: o.observations,
                alerts_last: o.alerts,
                last_error: None,
            },
            Err(e) => RtState { last_error: Some(e), ..self },
        }
    }

    /// Ends a cycle: takes note of it and, where it succeeded, gives the event
    /// to tell the subscribers.
    pub fn finish_cycle(&mut self, now: i64, cycle: Result<PollOutcome, String>) -> (r: Option<
        LiveEvent,
    >)
        ensures
            *final(self) == old(self).after_cycle(now, cycle),
            r == event_of(cycle),
    {
        match cycle {
            Ok(o) => {
                self.last_success = Some(now);
                self.last_feed_ts = Some(o.feed_ts);
                self.observations_last = o.observations;
                self.alerts_last = o.alerts;
                self.last_error = None;
                Some(
                    LiveEvent {
                        feed_ts: o.feed_ts,
                        observations: o.observations,
                        alerts: o.alerts,
                    },
                )
            },
            Err(e) => {
                self.last_error = Some(e);
                None
            },
        }
    }
}

/// Counts a cycle, and says whether the raw archive is to be purged after it:
/// it is after every `PURGE_EVERY` cycles.
pub fn count_cycle(cycles: u64) -> (r: (u64, bool))
    requires
        cycles < u64::MAX,
    ensures
        r.0 == cycles + 1,
        r.1 == ((cycles + 1) % PURGE_EVERY as int == 0),
{
    let counted: u64 = cycles + 1;
    (counted, counted % PURGE_EVERY == 0)
}

/// What the capture does when a cycle has ended, before it waits for the next.
#[derive(Debug, Clone, Copy, PartialEq, Eq, Structural)]
pub struct Turn {
    /// How many cycles have ended.
    pub cycles: u64,
    /// The event to tell the subscribers, if any.
    pub event: Option<LiveEvent>,
    /// Whether the raw archive is to be purged.
    pub purge: bool,
}

/// One turn of the capture, which never ends: takes note of a cycle that ended
/// at `now`, in the state and in the count of cycles, whether it succeeded or
/// not.
pub fn run(state: &mut RtState, cycles: u64, now: i64, cycle: Result<PollOutcome, String>) -> (r:
    Turn)
    requires
        cycles < u64::MAX,
    ensures
        *final(state) == old(state).after_cycle(now, cycle),
        r.event == event_of(cycle),
        r.cycles == cycles + 1,
        r.purge == ((cycles + 1) % PURGE_EVERY as int == 0),
{
    let event = state.finish_cycle(now, cycle);
    let (counted, purge) = count_cycle(cycles);
    Turn { cycles: counted, event, purge }
}

pub(crate) proof fn lemma_feed_observations_from(
    feed_ts: i64,
    captured_at: i64,
    entities: Seq<TripUpdateEntity>,
    i: int,
) -> (r: (int, int))
    requires
        0 <= i < feed_observations(feed_ts, captured_at, entities).len(),
    ensures
        0 <= r.0 < entities.len(),
        entities[r.0].names_trip(),
        0 <= r.1 < entities[r.0].trip_update->0.stop_time_update@.len(),
        entities[r.0].trip_update->0.stop_time_update@[r.1].is_kept(),
        feed_observations(feed_ts, captured_at, entities)[i] == observation_of(
            feed_ts,
            captured_at,
            entities[r.0].trip_update->0.trip->0.trip_id->0,
            entities[r.0].trip_update->0.trip->0.route_id,
            entities[r.0].trip_update->0.stop_time_update@[r.1],
        ),
    decreases entities.len(),
{
    let before = feed_observations(feed_ts, captured_at, entities.drop_last());
    if i < before.len() {
        let r = lemma_feed_observations_from(feed_ts, captured_at, entities.drop_last(), i);
        assert(entities.drop_last()[r.0] == entities[r.0]);
        r
    } else {
        let e = entities.last();
        let updates = e.trip_update->0.stop_time_update@;
        let p = |u: StopTimeUpdate| u.is_kept();
        let kept = updates.filter(p);
        crate::table::lemma_filter_items(updates, p);
        let u = kept[i - before.len()];
        assert(p(u) && updates.contains(u));
        let j = choose|j: int| 0 <= j < updates.len() && updates[j] == u;
        (entities.len() - 1, j)
    }
}

/// What is archived is a skipped stop or a prediction: nothing else, and nothing
/// that is marked as without data.
pub proof fn archived_is_skipped_or_predicted(
    feed_ts: i64,
    captured_at: i64,
    entities: Seq<TripUpdateEntity>,
    i: int,
)
    requires
        0 <= i < feed_observations(feed_ts, captured_at, entities).len(),
    ensures
        ({
            let o = feed_observations(feed_ts, captured_at, entities)[i];
            &&& o.schedule_relationship == SKIPPED || o.predicted_ms is Some
            &&& o.schedule_relationship != NO_DATA
        }),
{
    lemma_feed_observations_from(feed_ts, captured_at, entities, i);
}

/// The observations of two lists of entities, one behind the other, are those
/// of each, one behind the other: no entity affects what another gives. No
/// entities give no observations.
pub proof fn entities_are_observed_one_by_one(
    feed_ts: i64,
    captured_at: i64,
    a: Seq<TripUpdateEntity>,
    b: Seq<TripUpdateEntity>,
)
    ensures
        feed_observations(feed_ts, captured_at, a + b) == feed_observations(
            feed_ts,
            captured_at,
            a,
        ) + feed_observations(feed_ts, captured_at, b),
        feed_observations(feed_ts, captured_at, Seq::empty()) == Seq::<Observation>::empty(),
        feed_fits(a + b) <==> feed_fits(a) && feed_fits(b),
    decreases b.len(),
{
    if b.len() == 0 {
        assert(a + b =~= a);
    } else {
        entities_are_observed_one_by_one(feed_ts, captured_at, a, b.drop_last());
        assert((a + b).drop_last() =~= a + b.drop_last());
        assert((a + b).last() == b.last());
    }
    let all = a + b;
    if feed_fits(all) {
        assert forall|i: int| 0 <= i < a.len() implies (#[trigger] a[i]).fits() by {
            assert(all[i] == a[i]);
        }
        assert forall|i: int| 0 <= i < b.len() implies (#[trigger] b[i]).fits() by {
            assert(all[a.len() + i] == b[i]);
        }
    }
}

/// The alerts of two lists of entities, one behind the other, are those of each,
/// one behind the other: no entity affects what another gives. No entities give
/// no alerts.
pub proof fn alerts_are_kept_one_by_one(
    feed_ts: i64,
    captured_at: i64,
    a: Seq<AlertEntity>,
    b: Seq<AlertEntity>,
    records: Seq<AlertRecord>,
    more: Seq<AlertRecord>,
)
    requires
        are_records(records, feed_ts, captured_at, a),
        are_records(more, feed_ts, captured_at, b),
    ensures
        are_records(records + more, feed_ts, captured_at, a + b),
        kept_alerts(a + b) == kept_alerts(a) + kept_alerts(b),
        kept_alerts(Seq::empty()) == Seq::<AlertEntity>::empty(),
{
    let p = |e: AlertEntity| e.is_kept();
    crate::table::lemma_filter_concat(a, b, p);
    crate::table::lemma_filter_all(Seq::<AlertEntity>::empty(), p);
    let all = records + more;
    assert forall|i: int| 0 <= i < all.len() implies is_record_of(
        #[trigger] all[i],
        feed_ts,
        captured_at,
        kept_alerts(a + b)[i],
    ) by {
        if i < records.len() {
            assert(is_record_of(records[i], feed_ts, captured_at, kept_alerts(a)[i]));
        } else {
            let k = i - records.len();
            assert(is_record_of(more[k], feed_ts, captured_at, kept_alerts(b)[k]));
        }
    }
}

/// The scheduled instant of an observation is the predicted one less the delay,
/// and is known where both are.
pub proof fn scheduled_is_predicted_less_delay(
    feed_ts: i64,
    captured_at: i64,
    entities: Seq<TripUpdateEntity>,
    i: int,
)
    requires
        feed_fits(entities),
        0 <= i < feed_observations(feed_ts, captured_at, entities).len(),
    ensures
        ({
            let o = feed_observations(feed_ts, captured_at, entities)[i];
            &&& o.scheduled_ms is Some <==> o.predicted_ms is Some && o.delay_s is Some
            &&& o.scheduled_ms matches Some(s) ==> s == o.predicted_ms->0 - o.delay_s->0 * 1000
        }),
{
    let (e, u) = lemma_feed_observations_from(feed_ts, captured_at, entities, i);
    assert(entities[e].fits());
    assert(entities[e].trip_update->0.stop_time_update@[u].fits());
}

/// Some byte sequences, one after the other.
pub open spec fn in_a_row(parts: Seq<Seq<u8>>) -> Seq<u8>
    decreases parts.len(),
{
    if parts.len() == 0 {
        Seq::empty()
    } else {
        in_a_row(parts.drop_last()) + parts.last()
    }
}

/// A raw file gives back the lines that were appended to it, in their order.
pub proof fn a_raw_file_reads_back(parts: Seq<Seq<u8>>, bodies: Seq<Seq<char>>)
    requires
        parts.len() == bodies.len(),
        parts.len() > 0,
        forall|i: int| 0 <= i < parts.len() ==> appends_line(#[trigger] parts[i], bodies[i]),
    ensures
        gunzipped(in_a_row(parts)) == Some(
            in_a_row(bodies.map_values(|b: Seq<char>| line_bytes(b))),
        ),
    decreases parts.len(),
{
    let lines = bodies.map_values(|b: Seq<char>| line_bytes(b));
    let n = parts.len() - 1;
    assert(appends_line(parts[n], bodies[n]));
    assert(parts.last() == parts[n]);
    assert(lines.last() == line_bytes(bodies[n]));
    if n == 0 {
        assert(in_a_row(parts.drop_last()) =~= Seq::<u8>::empty());
        assert(in_a_row(parts) =~= parts[0]);
        assert(in_a_row(lines.drop_last()) =~= Seq::<u8>::empty());
        assert(in_a_row(lines) =~= lines[0]);
    } else {
        assert forall|i: int| 0 <= i < parts.drop_last().len() implies appends_line(
            #[trigger] parts.drop_last()[i],
            bodies.drop_last()[i],
        ) by {
            assert(appends_line(parts[i], bodies[i]));
        }
        a_raw_file_reads_back(parts.drop_last(), bodies.drop_last());
        assert(bodies.drop_last().map_values(|b: Seq<char>| line_bytes(b)) =~= lines.drop_last());
        assert(gunzipped(in_a_row(parts.drop_last())) is Some);
        assert(gunzipped(in_a_row(parts.drop_last()) + parts[n]) == Some(
            in_a_row(lines.drop_last()) + line_bytes(bodies[n]),
        ));
    }
}

proof fn lemma_padded_ascii(n: nat, width: nat)
    ensures
        vstd::utf8::is_ascii_chars(crate::text::padded(n, width)),
    decreases width,
{
    if width > 0 {
        lemma_padded_ascii(n / 10, (width - 1) as nat);
    }
}

proof fn lemma_dashed_bytes(y: int, m: int, d: int)
    requires
        is_date(y, m, d),
        0 <= y <= 9999,
    ensures
        encode_utf8(dashed_date(y, m, d)).len() == 10,
{
    crate::calendar::dashed_dates_sort_as_their_days(y, m, d, y, m, d);
    lemma_padded_ascii(y as nat, 4);
    lemma_padded_ascii(m as nat, 2);
    lemma_padded_ascii(d as nat, 2);
    let s = dashed_date(y, m, d);
    assert(vstd::utf8::is_ascii_chars(s));
    vstd::utf8::is_ascii_chars_encode_utf8(s);
}

/// A day's folder is due exactly when its day lies more than the retention
/// before today, for years of four digits; with a retention of 0 nothing is due.
pub proof fn only_days_past_the_retention_are_due(
    archive: RawArchive,
    now: i64,
    y: int,
    m: int,
    d: int,
    yy: int,
    mm: int,
    dd: int,
)
    requires
        is_date(y, m, d),
        0 <= y <= 9999,
        is_date(yy, mm, dd),
        0 <= yy <= 9999,
        day_number(yy, mm, dd) == now as int / 86_400 - archive.retention_days,
    ensures
        archive.is_due(now, dashed_date(y, m, d)) <==> archive.retention_days != 0 && day_number(
            y,
            m,
            d,
        ) < now as int / 86_400 - archive.retention_days,
{
    let c = cutoff(now, archive.retention_days);
    assert(c / 86_400 == now as int / 86_400 - archive.retention_days);
    assert(MIN_SECS <= c <= MAX_SECS) by {
        crate::calendar::day_numbers_follow_the_calendar(yy, mm, dd, 0, 1, 1);
        crate::calendar::day_numbers_follow_the_calendar(10_000, 1, 1, yy, mm, dd);
        assert(day_number(0, 1, 1) == -719_528);
        assert(day_number(10_000, 1, 1) == 2_932_897);
    }
    a_day_has_one_date(yy, mm, dd);
    crate::calendar::dashed_dates_sort_as_their_days(y, m, d, yy, mm, dd);
    lemma_dashed_bytes(y, m, d);
}

/// With a retention of 0 no folder is ever due.
pub proof fn no_retention_keeps_all(archive: RawArchive, now: i64, name: Seq<char>)
    requires
        archive.retention_days == 0,
    ensures
        !archive.is_due(now, name),
{
}

/// A cycle that failed leaves its message and changes nothing else, and gives no
/// event. One that succeeded leaves its numbers and its time and no message, and
/// gives one event with its numbers.
pub proof fn a_turn_tells_how_the_cycle_ended(state: RtState, ended: i64, cycle: Result<
    PollOutcome,
    String,
>)
    ensures
        cycle matches Err(e) ==> {
            let after = state.after_cycle(ended, cycle);
            &&& after.last_error == Some(e)
            &&& after.last_success == state.last_success
            &&& after.last_feed_ts == state.last_feed_ts
            &&& after.observations_last == state.observations_last
            &&& after.alerts_last == state.alerts_last
            &&& event_of(cycle) is None
        },
        cycle matches Ok(o) ==> {
            let after = state.after_cycle(ended, cycle);
            &&& after.last_error is None
            &&& after.last_success == Some(ended)
            &&& after.last_feed_ts == Some(o.feed_ts)
            &&& after.observations_last == o.observations
            &&& after.alerts_last == o.alerts
            &&& event_of(cycle) matches Some(e) && e.feed_ts == o.feed_ts && e.observations
                == o.observations && e.alerts == o.alerts
        },
{
}

/// A cycle that failed does not make the data look fresher: their age stays
/// what it was. One that succeeded makes it start anew.
pub proof fn a_failure_never_refreshes(state: RtState, ended: i64, cycle: Result<
    PollOutcome,
    String,
>, now: i64)
    ensures
        cycle is Err ==> state.after_cycle(ended, cycle).age(now) == state.age(now),
        cycle is Err ==> state.after_cycle(ended, cycle).last_feed_ts == state.last_feed_ts,
        cycle is Ok ==> state.after_cycle(ended, cycle).age(now) == Some(now - ended),
{
}

} // verus!
