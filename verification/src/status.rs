//! The status of a stop: the planned departures crossed with what was observed
//! in real time.

use crate::archive::{newest, AlertRecord, AlertTrip, Archive, Observation};
use crate::calendar::{
    brussels_clock, brussels_earliest, clock_at, compact_date, days_from_ce, earliest_instant,
    format_date, instant_at, instant_of_millis, utc_date, weekday, LocalDateTime, DAY_SECS,
    MAX_SECS, MAX_YEAR, MIN_SECS, MIN_YEAR,
};
use crate::domain::{
    advice_text, text_of, Departure, LineStatus, NetworkContext, Stop, StopStatus, Thresholds,
};
use crate::gtfs::{date_fault, weekday_in, GtfsError};
use crate::loader::StopRow;
use crate::network::{
    commune_of, commune_of_stop, CommuneStatus, NetworkStats, NetworkStatus, NetworkThresholds,
};
use crate::order::{ordered, sort_by};
use crate::ratio::Ratio;
use crate::realtime::{EFFECT_NO_SERVICE, EFFECT_REDUCED_SERVICE, SKIPPED};
use crate::state::{build_stop_status, gravest, is_judged, make_line_status};
use crate::text::{
    ascii_lowered, pieces, same_ignoring_case, same_text, split_on, text_before, text_lt,
};
use crate::timetable::{
    at_most, by_departure, by_name, is_listed, GtfsRepo, ScheduledDeparture,
};
use vstd::prelude::*;

verus! {

/// How many minutes ahead departures are shown.
pub const HORIZON_MIN: i64 = 60;

/// How many departures of a stop are looked at.
pub const MAX_DEPARTURES: usize = 12;

impl LocalDateTime {
    /// Whether the year is neither the first nor the last that there is, so that
    /// the days around the date exist.
    pub open spec fn has_neighbours(self) -> bool {
        MIN_YEAR < self.year < MAX_YEAR
    }

    /// The seconds from 1970-01-01T00:00:00 that the clock shows.
    pub open spec fn local_secs(self) -> int {
        self.day_no() * 86_400 + self.secs_of_day()
    }
}

proof fn lemma_day_range(t: LocalDateTime)
    requires
        t.wf(),
        t.has_neighbours(),
    ensures
        MIN_SECS + 365 * 86_400 <= t.day_no() * 86_400 <= MAX_SECS - 365 * 86_400,
{
    let (y, m, d) = (t.year as int, t.month as int, t.day as int);
    crate::calendar::day_numbers_follow_the_calendar(y, m, d, -262_142, 1, 1);
    crate::calendar::day_numbers_follow_the_calendar(y, m, d, 262_142, 1, 1);
    assert(crate::calendar::day_number(-262_142, 1, 1) == -96_464_927);
    assert(crate::calendar::day_number(262_142, 1, 1) == 95_025_872);
}

/// The day of service of a date: `YYYYMMDD`.
pub fn service_date(now: LocalDateTime) -> (r: String)
    requires
        now.wf(),
    ensures
        r@ == compact_date(now.year as int, now.month as int, now.day as int),
{
    format_date(now.year, now.month, now.day, "%Y%m%d")
}

/// The instant, in milliseconds from 1970-01-01T00:00:00 UTC, of a time of the
/// timetable: `secs` seconds from midnight of the day, on a Brussels clock. Of
/// two such instants it is the first; where the clock never shows the time, it
/// is read as UTC.
pub open spec fn instant_on(now: LocalDateTime, secs: int) -> int {
    let local = now.day_no() * 86_400 + secs;
    match brussels_earliest(local) {
        Some(t) => t * 1000,
        None => local * 1000,
    }
}

/// The instant, in milliseconds from 1970-01-01T00:00:00 UTC, of a time of the
/// timetable: `secs` seconds from midnight of the day, on a Brussels clock. At
/// that instant the clock does show the time, if it ever does.
pub fn day_secs_to_utc(now: LocalDateTime, secs: i64) -> (r: i64)
    requires
        now.wf(),
        MIN_SECS + DAY_SECS <= now.day_no() * 86_400 + secs <= MAX_SECS - DAY_SECS,
    ensures
        r == instant_on(now, secs as int),
        brussels_earliest(now.day_no() * 86_400 + secs) is Some ==> brussels_clock(
            r as int / 1000,
        ) == now.day_no() * 86_400 + secs,
{
    let days: i64 = days_from_ce(now.year, now.month, now.day) as i64 - 719_163;
    let local: i128 = days as i128 * 86_400 + secs as i128;
    match earliest_instant(local as i64) {
        Some(t) => t * 1000,
        None => local as i64 * 1000,
    }
}

// Alerts.

/// Whether a feed is the newest alert feed.
pub open spec fn is_current(archive: Archive, feed_ts: i64) -> bool {
    newest(archive.alert_stamps()) == Some(feed_ts)
}

/// Whether an alert says that trips do not run as planned.
pub open spec fn stops_trips(a: AlertRecord) -> bool {
    a.effect == Some(EFFECT_NO_SERVICE) || a.effect == Some(EFFECT_REDUCED_SERVICE)
}

/// Whether a link between an alert and a trip cancels the trip, by the newest
/// alert feed.
pub open spec fn cancels(archive: Archive, link: AlertTrip) -> bool {
    &&& is_current(archive, link.feed_ts)
    &&& exists|i: int|
        0 <= i < archive.alerts@.len() && (#[trigger] archive.alerts@[i]).alert_id@
            == link.alert_id@ && archive.alerts@[i].feed_ts == link.feed_ts && stops_trips(
            archive.alerts@[i],
        )
}

fn link_cancels(archive: &Archive, current: Option<i64>, link: &AlertTrip) -> (r: bool)
    requires
        current == newest(archive.alert_stamps()),
    ensures
        r == cancels(*archive, *link),
{
    match current {
        Some(ts) => {
            if ts != link.feed_ts {
                return false;
            }
        },
        None => {
            return false;
        },
    }
    let mut i: usize = 0;
    while i < archive.alerts.len()
        invariant
            0 <= i <= archive.alerts@.len(),
            is_current(*archive, link.feed_ts),
            forall|k: int|
                0 <= k < i ==> !((#[trigger] archive.alerts@[k]).alert_id@ == link.alert_id@
                    && archive.alerts@[k].feed_ts == link.feed_ts && stops_trips(
                    archive.alerts@[k],
                )),
        decreases archive.alerts@.len() - i,
    {
        let a = &archive.alerts[i];
        let stops = match a.effect {
            Some(e) => e == EFFECT_NO_SERVICE || e == EFFECT_REDUCED_SERVICE,
            None => false,
        };
        if stops && a.feed_ts == link.feed_ts && same_text(&a.alert_id, &link.alert_id) {
            return true;
        }
        i = i + 1;
    }
    false
}

/// The trips that the newest alert feed cancels.
pub fn cancelled_trips(archive: &Archive) -> (r: Vec<String>)
    ensures
        r@ == archive.alert_trips@.filter(|x: AlertTrip| cancels(*archive, x)).map_values(
            |x: AlertTrip| x.trip_id,
        ),
{
    let current = archive.newest_alert();
    let ghost p = |x: AlertTrip| cancels(*archive, x);
    let ghost f = |x: AlertTrip| x.trip_id;
    let mut out: Vec<String> = Vec::new();
    let mut i: usize = 0;
    proof {
        reveal(Seq::filter);
        assert(archive.alert_trips@.take(0) =~= Seq::<AlertTrip>::empty());
        assert(out@ =~= archive.alert_trips@.take(0).filter(p).map_values(f));
    }
    while i < archive.alert_trips.len()
        invariant
            0 <= i <= archive.alert_trips@.len(),
            current == newest(archive.alert_stamps()),
            p == (|x: AlertTrip| cancels(*archive, x)),
            f == (|x: AlertTrip| x.trip_id),
            out@ == archive.alert_trips@.take(i as int).filter(p).map_values(f),
        decreases archive.alert_trips@.len() - i,
    {
        let link = &archive.alert_trips[i];
        proof {
            reveal(Seq::filter);
            assert(archive.alert_trips@.take(i + 1).drop_last() =~= archive.alert_trips@.take(
                i as int,
            ));
            assert(archive.alert_trips@.take(i + 1).last() == *link);
        }
        if link_cancels(archive, current, link) {
            out.push(link.trip_id.clone());
        }
        assert(out@ =~= archive.alert_trips@.take(i + 1).filter(p).map_values(f));
        i = i + 1;
    }
    assert(archive.alert_trips@.take(archive.alert_trips@.len() as int) =~= archive.alert_trips@);
    out
}

/// Whether an alert names a trip.
pub open spec fn names_trips(archive: Archive, a: AlertRecord) -> bool {
    exists|i: int|
        0 <= i < archive.alert_trips@.len() && (#[trigger] archive.alert_trips@[i]).alert_id@
            == a.alert_id@ && archive.alert_trips@[i].feed_ts == a.feed_ts
}

/// Whether an alert of the newest feed stops whole lines. One that names trips
/// does not: it is about those trips alone.
pub open spec fn stops_lines(archive: Archive, a: AlertRecord) -> bool {
    &&& is_current(archive, a.feed_ts)
    &&& a.effect == Some(EFFECT_NO_SERVICE)
    &&& a.route_ids@.len() > 0
    &&& !names_trips(archive, a)
}

fn alert_stops_lines(archive: &Archive, current: Option<i64>, a: &AlertRecord) -> (r: bool)
    requires
        current == newest(archive.alert_stamps()),
    ensures
        r == stops_lines(*archive, *a),
{
    let is_now = match current {
        Some(ts) => ts == a.feed_ts,
        None => false,
    };
    let no_service = match a.effect {
        Some(e) => e == EFFECT_NO_SERVICE,
        None => false,
    };
    if !is_now || !no_service || a.route_ids.as_str().is_empty() {
        return false;
    }
    let mut i: usize = 0;
    while i < archive.alert_trips.len()
        invariant
            0 <= i <= archive.alert_trips@.len(),
            forall|k: int|
                0 <= k < i ==> !((#[trigger] archive.alert_trips@[k]).alert_id@ == a.alert_id@
                    && archive.alert_trips@[k].feed_ts == a.feed_ts),
        decreases archive.alert_trips@.len() - i,
    {
        let link = &archive.alert_trips[i];
        if link.feed_ts == a.feed_ts && same_text(&link.alert_id, &a.alert_id) {
            assert(names_trips(*archive, *a));
            return false;
        }
        i = i + 1;
    }
    true
}

/// Whether an alert names a line, among those separated by commas.
pub open spec fn names_line(a: AlertRecord, route_id: Seq<char>) -> bool {
    route_id.len() > 0 && pieces(a.route_ids@, ',').contains(route_id)
}

/// What an alert tells the traveller: its header or, without one, its
/// description.
pub open spec fn alert_message(a: AlertRecord) -> Seq<char> {
    match (a.header_fr, a.description_fr) {
        (Some(h), _) => h@,
        (None, Some(d)) => d@,
        (None, None) => "Service interrompu"@,
    }
}

/// The alerts that count at a stop.
#[derive(Debug)]
pub struct ActiveAlerts {
    /// Those that stop whole lines.
    pub no_service: Vec<AlertRecord>,
    /// The trips that are cancelled.
    pub cancelled_trips: Vec<String>,
}

/// What is told of a line that some alerts may stop: the message of the first
/// that does.
pub open spec fn line_message(alerts: Seq<AlertRecord>, route_id: Seq<char>) -> Option<Seq<char>> {
    let found = alerts.filter(|a: AlertRecord| names_line(a, route_id));
    if found.len() > 0 {
        Some(alert_message(found[0]))
    } else {
        None
    }
}

fn alert_names_line(a: &AlertRecord, route_id: &str) -> (r: bool)
    ensures
        r == names_line(*a, route_id@),
{
    if route_id.is_empty() {
        return false;
    }
    let parts = split_on(&a.route_ids, ',');
    assert(parts.deep_view() == pieces(a.route_ids@, ','));
    let mut i: usize = 0;
    while i < parts.len()
        invariant
            0 <= i <= parts@.len(),
            route_id@.len() > 0,
            parts.deep_view() == pieces(a.route_ids@, ','),
            forall|k: int| 0 <= k < i ==> (#[trigger] parts@[k])@ != route_id@,
        decreases parts@.len() - i,
    {
        if same_text(&parts[i], route_id) {
            assert(parts.deep_view()[i as int] == route_id@);
            return true;
        }
        i = i + 1;
    }
    assert forall|k: int| 0 <= k < parts.deep_view().len() implies #[trigger] parts.deep_view()[k]
        != route_id@ by {
        assert(parts.deep_view()[k] == parts@[k]@);
    }
    false
}

impl ActiveAlerts {
    /// What is told of a line that the alerts may stop.
    pub fn message_for(&self, route_id: &str) -> (r: Option<String>)
        ensures
            text_of(r) == line_message(self.no_service@, route_id@),
    {
        let ghost p = |a: AlertRecord| names_line(a, route_id@);
        let mut i: usize = 0;
        proof {
            reveal(Seq::filter);
            assert(self.no_service@.take(0) =~= Seq::<AlertRecord>::empty());
        }
        while i < self.no_service.len()
            invariant
                0 <= i <= self.no_service@.len(),
                p == (|a: AlertRecord| names_line(a, route_id@)),
                self.no_service@.take(i as int).filter(p).len() == 0,
            decreases self.no_service@.len() - i,
        {
            let a = &self.no_service[i];
            proof {
                reveal(Seq::filter);
                assert(self.no_service@.take(i + 1).drop_last() =~= self.no_service@.take(
                    i as int,
                ));
                assert(self.no_service@.take(i + 1).last() == *a);
            }
            if alert_names_line(a, route_id) {
                proof {
                    crate::table::lemma_filter_concat(
                        self.no_service@.take(i + 1),
                        self.no_service@.skip(i + 1),
                        p,
                    );
                    assert(self.no_service@.take(i + 1) + self.no_service@.skip(i + 1)
                        =~= self.no_service@);
                }
                return match (&a.header_fr, &a.description_fr) {
                    (Some(h), _) => Some(h.clone()),
                    (None, Some(d)) => Some(d.clone()),
                    (None, None) => Some("Service interrompu".to_string()),
                };
            }
            i = i + 1;
        }
        assert(self.no_service@.take(self.no_service@.len() as int) =~= self.no_service@);
        None
    }
}

/// Whether a trip calls at a stop.
pub open spec fn trip_calls_at(repo: GtfsRepo, trip_id: Seq<char>, stop_id: Seq<char>) -> bool {
    exists|i: int|
        0 <= i < repo.stop_times@.len() && (#[trigger] repo.stop_times@[i]).trip_id@ == trip_id
            && repo.stop_times@[i].stop_id@ == stop_id
}

fn calls_at(repo: &GtfsRepo, trip_id: &str, stop_id: &str) -> (r: bool)
    ensures
        r == trip_calls_at(*repo, trip_id@, stop_id@),
{
    let mut i: usize = 0;
    while i < repo.stop_times.len()
        invariant
            0 <= i <= repo.stop_times@.len(),
            forall|k: int|
                0 <= k < i ==> !((#[trigger] repo.stop_times@[k]).trip_id@ == trip_id@
                    && repo.stop_times@[k].stop_id@ == stop_id@),
        decreases repo.stop_times@.len() - i,
    {
        let st = &repo.stop_times[i];
        if same_text(&st.stop_id, stop_id) && same_text(&st.trip_id, trip_id) {
            return true;
        }
        i = i + 1;
    }
    false
}

/// Whether a trip calls at the stop or at one of its child platforms.
pub open spec fn trip_serves(repo: GtfsRepo, trip_id: Seq<char>, stop_id: Seq<char>) -> bool {
    ||| trip_calls_at(repo, trip_id, stop_id)
    ||| exists|k: int|
        0 <= k < repo.stops@.len() && is_platform_of(#[trigger] repo.stops@[k], stop_id)
            && trip_calls_at(repo, trip_id, repo.stops@[k].stop_id@)
}

/// Whether a stop is a child platform of a station.
pub open spec fn is_platform_of(s: StopRow, station: Seq<char>) -> bool {
    s.parent_station matches Some(p) && p@ == station
}

fn serves_stop(repo: &GtfsRepo, trip_id: &str, stop_id: &str) -> (r: bool)
    ensures
        r == trip_serves(*repo, trip_id@, stop_id@),
{
    if calls_at(repo, trip_id, stop_id) {
        return true;
    }
    let mut i: usize = 0;
    while i < repo.stops.len()
        invariant
            0 <= i <= repo.stops@.len(),
            forall|k: int|
                0 <= k < i ==> !(is_platform_of(#[trigger] repo.stops@[k], stop_id@)
                    && trip_calls_at(*repo, trip_id@, repo.stops@[k].stop_id@)),
        decreases repo.stops@.len() - i,
    {
        let s = &repo.stops[i];
        let platform = match &s.parent_station {
            Some(p) => same_text(p, stop_id),
            None => false,
        };
        if platform && calls_at(repo, trip_id, &s.stop_id) {
            assert(is_platform_of(repo.stops@[i as int], stop_id@));
            return true;
        }
        i = i + 1;
    }
    false
}

// The service.

/// What is needed to tell the status of a stop.
pub struct StatusService {
    pub repo: GtfsRepo,
    pub archive: Archive,
    pub thresholds: Thresholds,
    /// The age, in seconds, beyond which observations are stale.
    pub stale_after: i64,
    pub network: NetworkThresholds,
    pub stats: Vec<NetworkStats>,
}

/// Whether a trip of one of the services calls at the stop at that place.
pub open spec fn calls_there(
    repo: GtfsRepo,
    trip_id: Seq<char>,
    stop_sequence: i64,
    stop_id: Seq<char>,
    services: Seq<String>,
) -> bool {
    &&& exists|t: int|
        0 <= t < repo.trips@.len() && (#[trigger] repo.trips@[t]).trip_id@ == trip_id && is_listed(
            services,
            repo.trips@[t].service_id@,
        )
    &&& exists|i: int|
        0 <= i < repo.stop_times@.len() && (#[trigger] repo.stop_times@[i]).trip_id@ == trip_id
            && repo.stop_times@[i].stop_sequence == stop_sequence && repo.stop_times@[i].stop_id@
            == stop_id
}

/// What was observed last of a trip at a place.
pub open spec fn hit(rt: Seq<Observation>, trip_id: Seq<char>, stop_sequence: i64) -> Option<
    Observation,
> {
    let found = rt.filter(
        |o: Observation| o.trip_id@ == trip_id && o.stop_sequence == stop_sequence,
    );
    if found.len() > 0 {
        Some(found.last())
    } else {
        None
    }
}

/// The age in seconds, at `utc_secs`, of what a feed told: none for a feed from
/// the future.
pub open spec fn age_at(utc_secs: int, feed_ts: i64) -> int {
    if utc_secs > feed_ts {
        utc_secs - feed_ts
    } else {
        0
    }
}

/// The departures of some stops, one stop after the other.
pub open spec fn calls_of(
    repo: GtfsRepo,
    stops: Seq<Stop>,
    services: Seq<String>,
    from_secs: int,
) -> Seq<ScheduledDeparture>
    decreases stops.len(),
{
    if stops.len() == 0 {
        Seq::empty()
    } else {
        calls_of(repo, stops.drop_last(), services, from_secs) + at_most(
            ordered(
                repo.departures_within(
                    stops.last().stop_id@,
                    services,
                    from_secs,
                    HORIZON_MIN * 60,
                ),
                by_departure(),
            ),
            MAX_DEPARTURES as int,
        )
    }
}

/// The lines of some departures, in the order in which they first occur.
pub open spec fn lines_in(planned: Seq<ScheduledDeparture>) -> Seq<Seq<char>>
    decreases planned.len(),
{
    if planned.len() == 0 {
        Seq::empty()
    } else {
        let before = lines_in(planned.drop_last());
        if before.contains(planned.last().route_id@) {
            before
        } else {
            before.push(planned.last().route_id@)
        }
    }
}

/// The short names of the lines decide.
pub open spec fn by_line_name() -> spec_fn(LineStatus, LineStatus) -> bool {
    |a: LineStatus, b: LineStatus| text_lt(a.line.short_name@, b.line.short_name@)
}

fn line_name_before(a: &LineStatus, b: &LineStatus) -> (r: bool)
    ensures
        r == by_line_name()(*a, *b),
{
    text_before(&a.line.short_name, &b.line.short_name)
}

fn scheduled_before(a: &ScheduledDeparture, b: &ScheduledDeparture) -> (r: bool)
    ensures
        r == by_departure()(*a, *b),
{
    a.departure_secs < b.departure_secs
}

impl StatusService {
    /// Whether the threshold shares are shares.
    pub open spec fn wf(self) -> bool {
        self.thresholds.wf()
    }

    /// The service over a timetable, an archive and the counts of the communes,
    /// with the thresholds by default.
    pub fn open(repo: GtfsRepo, archive: Archive, stats: Vec<NetworkStats>) -> (r: Self)
        ensures
            r.wf(),
            r.repo == repo,
            r.archive == archive,
            r.stats == stats,
            r.thresholds == crate::state::default_thresholds(),
            r.stale_after == 120,
            r.network.degraded_ratio == (Ratio { num: 2, den: 10 }),
            r.network.critical_ratio == (Ratio { num: 5, den: 10 }),
            r.network.min_annulled == 5,
    {
        let thresholds = Thresholds::default();
        StatusService {
            repo,
            archive,
            thresholds,
            stale_after: thresholds.stale_feed_secs as i64,
            network: NetworkThresholds::default(),
            stats,
        }
    }

    /// The same service with other thresholds.
    pub fn with_thresholds(self, thresholds: Thresholds, stale_after: i64) -> (r: Self)
        ensures
            r.repo == self.repo,
            r.archive == self.archive,
            r.stats == self.stats,
            r.network == self.network,
            r.thresholds == thresholds,
            r.stale_after == stale_after,
    {
        StatusService {
            repo: self.repo,
            archive: self.archive,
            thresholds,
            stale_after,
            network: self.network,
            stats: self.stats,
        }
    }

    /// What a Brussels clock shows at an instant: the time that `stop_status`
    /// expects.
    pub fn now_brussels(utc_secs: i64) -> (r: LocalDateTime)
        requires
            MIN_SECS + DAY_SECS <= utc_secs <= MAX_SECS - DAY_SECS,
        ensures
            r.wf(),
            r.local_secs() == brussels_clock(utc_secs as int),
    {
        let local: i64 = clock_at(utc_secs);
        let (year, month, day) = utc_date(local).unwrap();
        let of_day: i64 = if local >= 0 {
            local % 86_400
        } else {
            (86_400 - ((-local) % 86_400)) % 86_400
        };
        assert(of_day == local as int % 86_400);
        LocalDateTime {
            year,
            month,
            day,
            hour: (of_day / 3600) as u32,
            minute: (of_day % 3600 / 60) as u32,
            second: (of_day % 60) as u32,
        }
    }

    /// Whether an observation is of the newest feed and counts at the stop.
    pub open spec fn counts(self, o: Observation, stop_id: Seq<char>, services: Seq<String>) -> bool {
        &&& newest(self.archive.observation_stamps()) == Some(o.feed_ts)
        &&& calls_there(self.repo, o.trip_id@, o.stop_sequence, stop_id, services)
    }

    /// The observations of the newest feed that count at the stop.
    pub open spec fn observed_at(
        self,
        stop_id: Seq<char>,
        services: Seq<String>,
    ) -> Seq<Observation> {
        self.archive.observations@.filter(|o: Observation| self.counts(o, stop_id, services))
    }

    /// The age in seconds of the newest feed of observations, at `utc_secs`.
    pub open spec fn feed_age(self, utc_secs: int) -> Option<int> {
        match newest(self.archive.observation_stamps()) {
            Some(ts) => Some(age_at(utc_secs, ts)),
            None => None,
        }
    }

    /// Whether the newest feed of observations has a date, and its age fits.
    pub open spec fn feed_has_date(self) -> bool {
        newest(self.archive.observation_stamps()) matches Some(ts) ==> ts >= MIN_SECS
    }

    /// Tests whether the newest feed of observations has a date.
    pub fn feed_is_dated(&self) -> (r: bool)
        ensures
            r == self.feed_has_date(),
    {
        match self.archive.newest_observation() {
            Some(ts) => ts >= MIN_SECS,
            None => true,
        }
    }

    /// The age in seconds of the newest feed of observations, at `utc_secs`.
    pub fn latest_feed_age(&self, utc_secs: i64) -> (r: Option<i64>)
        requires
            self.feed_has_date(),
            utc_secs <= MAX_SECS,
        ensures
            r is Some <==> self.feed_age(utc_secs as int) is Some,
            r matches Some(a) ==> a == self.feed_age(utc_secs as int)->0,
    {
        match self.archive.newest_observation() {
            Some(ts) => {
                if utc_secs > ts {
                    Some(utc_secs - ts)
                } else {
                    Some(0)
                }
            },
            None => None,
        }
    }

    fn trip_of_services(&self, trip_id: &str, services: &[String]) -> (r: bool)
        ensures
            r == exists|t: int|
                0 <= t < self.repo.trips@.len() && (#[trigger] self.repo.trips@[t]).trip_id@
                    == trip_id@ && is_listed(services@, self.repo.trips@[t].service_id@),
    {
        let mut i: usize = 0;
        while i < self.repo.trips.len()
            invariant
                0 <= i <= self.repo.trips@.len(),
                forall|t: int|
                    0 <= t < i ==> !((#[trigger] self.repo.trips@[t]).trip_id@ == trip_id@
                        && is_listed(services@, self.repo.trips@[t].service_id@)),
            decreases self.repo.trips@.len() - i,
        {
            let t = &self.repo.trips[i];
            if same_text(&t.trip_id, trip_id) && crate::timetable::list_has(
                services,
                &t.service_id,
            ) {
                return true;
            }
            i = i + 1;
        }
        false
    }

    fn calls_at_place(&self, trip_id: &str, stop_sequence: i64, stop_id: &str) -> (r: bool)
        ensures
            r == exists|i: int|
                0 <= i < self.repo.stop_times@.len() && (
                #[trigger] self.repo.stop_times@[i]).trip_id@ == trip_id@
                    && self.repo.stop_times@[i].stop_sequence == stop_sequence
                    && self.repo.stop_times@[i].stop_id@ == stop_id@,
    {
        let mut i: usize = 0;
        while i < self.repo.stop_times.len()
            invariant
                0 <= i <= self.repo.stop_times@.len(),
                forall|k: int|
                    0 <= k < i ==> !((#[trigger] self.repo.stop_times@[k]).trip_id@ == trip_id@
                        && self.repo.stop_times@[k].stop_sequence == stop_sequence
                        && self.repo.stop_times@[k].stop_id@ == stop_id@),
            decreases self.repo.stop_times@.len() - i,
        {
            let st = &self.repo.stop_times[i];
            if st.stop_sequence == stop_sequence && same_text(&st.trip_id, trip_id) && same_text(
                &st.stop_id,
                stop_id,
            ) {
                return true;
            }
            i = i + 1;
        }
        false
    }

    /// The last observations of the trips that serve a stop, and their age in
    /// seconds at `utc_secs`. Where nothing was observed at the stop, the age is
    /// that of the newest feed; where no service runs, there is none.
    pub fn latest_rt_for_stop(&self, stop_id: &str, services: &[String], utc_secs: i64) -> (r: (
        Vec<Observation>,
        Option<i64>,
    ))
        requires
            self.feed_has_date(),
            utc_secs <= MAX_SECS,
        ensures
            r.0@ == self.observed_at(stop_id@, services@),
            r.1 is Some <==> services@.len() > 0 && self.feed_age(utc_secs as int) is Some,
            r.1 matches Some(a) ==> a == self.feed_age(utc_secs as int)->0,
    {
        let ghost p = |o: Observation| self.counts(o, stop_id@, services@);
        let mut out: Vec<Observation> = Vec::new();
        if services.len() == 0 {
            proof {
                assert forall|i: int| 0 <= i < self.archive.observations@.len() implies !p(
                    #[trigger] self.archive.observations@[i],
                ) by {}
                crate::table::lemma_filter_all(self.archive.observations@, p);
                assert(out@ =~= Seq::<Observation>::empty());
            }
            return (out, None);
        }
        let current = self.archive.newest_observation();
        let mut i: usize = 0;
        proof {
            reveal(Seq::filter);
            assert(self.archive.observations@.take(0) =~= Seq::<Observation>::empty());
        }
        while i < self.archive.observations.len()
            invariant
                0 <= i <= self.archive.observations@.len(),
                current == newest(self.archive.observation_stamps()),
                p == (|o: Observation| self.counts(o, stop_id@, services@)),
                out@ == self.archive.observations@.take(i as int).filter(p),
            decreases self.archive.observations@.len() - i,
        {
            let o = &self.archive.observations[i];
            proof {
                reveal(Seq::filter);
                assert(self.archive.observations@.take(i + 1).drop_last()
                    =~= self.archive.observations@.take(i as int));
                assert(self.archive.observations@.take(i + 1).last() == *o);
            }
            let is_new = match current {
                Some(ts) => ts == o.feed_ts,
                None => false,
            };
            if is_new && self.calls_at_place(&o.trip_id, o.stop_sequence, stop_id)
                && self.trip_of_services(&o.trip_id, services) {
                out.push(o.clone());
            }
            i = i + 1;
        }
        assert(self.archive.observations@.take(self.archive.observations@.len() as int)
            =~= self.archive.observations@);
        (out, self.latest_feed_age(utc_secs))
    }

    /// Whether a link cancels a trip that calls at the stop or at one of its
    /// child platforms.
    pub open spec fn cancels_at(self, link: AlertTrip, stop_id: Seq<char>) -> bool {
        cancels(self.archive, link) && trip_serves(self.repo, link.trip_id@, stop_id)
    }

    /// The trips calling at the stop, or at one of its child platforms, that the
    /// newest alert feed cancels.
    pub open spec fn cancelled_at(self, stop_id: Seq<char>) -> Seq<String> {
        self.archive.alert_trips@.filter(
            |x: AlertTrip| self.cancels_at(x, stop_id),
        ).map_values(|x: AlertTrip| x.trip_id)
    }

    /// The alerts of the newest feed that stop whole lines.
    pub open spec fn stopping_alerts(self) -> Seq<AlertRecord> {
        self.archive.alerts@.filter(|a: AlertRecord| stops_lines(self.archive, a))
    }

    /// The alerts of the newest feed that count at a stop: lines that do not run
    /// at all (an alert without service that names no trip), and the trips of the
    /// stop and of its child platforms that are cancelled.
    pub fn active_alerts_for_stop(&self, stop_id: &str) -> (r: ActiveAlerts)
        ensures
            r.no_service@ == self.stopping_alerts(),
            r.cancelled_trips@ == self.cancelled_at(stop_id@),
    {
        let current = self.archive.newest_alert();
        let ghost p = |x: AlertTrip| self.cancels_at(x, stop_id@);
        let ghost f = |x: AlertTrip| x.trip_id;
        let mut trips: Vec<String> = Vec::new();
        let mut i: usize = 0;
        proof {
            reveal(Seq::filter);
            assert(self.archive.alert_trips@.take(0) =~= Seq::<AlertTrip>::empty());
            assert(trips@ =~= self.archive.alert_trips@.take(0).filter(p).map_values(f));
        }
        while i < self.archive.alert_trips.len()
            invariant
                0 <= i <= self.archive.alert_trips@.len(),
                current == newest(self.archive.alert_stamps()),
                p == (|x: AlertTrip| self.cancels_at(x, stop_id@)),
                f == (|x: AlertTrip| x.trip_id),
                trips@ == self.archive.alert_trips@.take(i as int).filter(p).map_values(f),
            decreases self.archive.alert_trips@.len() - i,
        {
            let link = &self.archive.alert_trips[i];
            proof {
                reveal(Seq::filter);
                assert(self.archive.alert_trips@.take(i + 1).drop_last()
                    =~= self.archive.alert_trips@.take(i as int));
                assert(self.archive.alert_trips@.take(i + 1).last() == *link);
            }
            if link_cancels(&self.archive, current, link) && serves_stop(
                &self.repo,
                &link.trip_id,
                stop_id,
            ) {
                trips.push(link.trip_id.clone());
            }
            assert(trips@ =~= self.archive.alert_trips@.take(i + 1).filter(p).map_values(f));
            i = i + 1;
        }
        assert(self.archive.alert_trips@.take(self.archive.alert_trips@.len() as int)
            =~= self.archive.alert_trips@);
        let ghost q = |a: AlertRecord| stops_lines(self.archive, a);
        let mut no_service: Vec<AlertRecord> = Vec::new();
        let mut j: usize = 0;
        proof {
            reveal(Seq::filter);
            assert(self.archive.alerts@.take(0) =~= Seq::<AlertRecord>::empty());
        }
        while j < self.archive.alerts.len()
            invariant
                0 <= j <= self.archive.alerts@.len(),
                current == newest(self.archive.alert_stamps()),
                q == (|a: AlertRecord| stops_lines(self.archive, a)),
                no_service@ == self.archive.alerts@.take(j as int).filter(q),
            decreases self.archive.alerts@.len() - j,
        {
            let a = &self.archive.alerts[j];
            proof {
                reveal(Seq::filter);
                assert(self.archive.alerts@.take(j + 1).drop_last() =~= self.archive.alerts@.take(
                    j as int,
                ));
                assert(self.archive.alerts@.take(j + 1).last() == *a);
            }
            if alert_stops_lines(&self.archive, current, a) {
                no_service.push(a.clone());
            }
            j = j + 1;
        }
        assert(self.archive.alerts@.take(self.archive.alerts@.len() as int)
            =~= self.archive.alerts@);
        ActiveAlerts { no_service, cancelled_trips: trips }
    }
}

/// How a commune with these counts and this share fares.
pub open spec fn status_by_share(
    scheduled: i64,
    cancelled: i64,
    share: Ratio,
    th: NetworkThresholds,
) -> NetworkStatus {
    if scheduled == 0 || cancelled < th.min_annulled {
        NetworkStatus::Normal
    } else if share.at_least_spec(th.critical_ratio) {
        NetworkStatus::Critical
    } else if share.at_least_spec(th.degraded_ratio) {
        NetworkStatus::Degraded
    } else {
        NetworkStatus::Normal
    }
}

/// Applies the thresholds to counts that are there already.
pub fn derive_commune_status(c: CommuneStatus, th: NetworkThresholds) -> (r: CommuneStatus)
    ensures
        r.commune == c.commune,
        r.trips_scheduled == c.trips_scheduled,
        r.trips_cancelled == c.trips_cancelled,
        r.cancelled_ratio == c.cancelled_ratio,
        r.status == status_by_share(c.trips_scheduled, c.trips_cancelled, c.cancelled_ratio, th),
        r.status_label@ == r.status.label_text(),
{
    let status = if c.trips_scheduled == 0 {
        NetworkStatus::Normal
    } else if c.trips_cancelled >= th.min_annulled && c.cancelled_ratio.at_least(
        th.critical_ratio,
    ) {
        NetworkStatus::Critical
    } else if c.trips_cancelled >= th.min_annulled && c.cancelled_ratio.at_least(
        th.degraded_ratio,
    ) {
        NetworkStatus::Degraded
    } else {
        NetworkStatus::Normal
    };
    CommuneStatus {
        commune: c.commune,
        trips_scheduled: c.trips_scheduled,
        trips_cancelled: c.trips_cancelled,
        cancelled_ratio: c.cancelled_ratio,
        status,
        status_label: status.label().to_string(),
    }
}

/// The counts of a commune, whatever the case of its name: those of the first
/// row.
pub open spec fn counts_for(stats: Seq<NetworkStats>, commune: Seq<char>) -> Option<NetworkStats> {
    let found = stats.filter(
        |s: NetworkStats| ascii_lowered(s.commune@) == ascii_lowered(commune),
    );
    if found.len() > 0 {
        Some(found[0])
    } else {
        None
    }
}

/// The share of cancelled trips in some counts.
pub open spec fn share_in(s: NetworkStats) -> Ratio {
    if s.trips_scheduled == 0 {
        Ratio { num: 0, den: 1 }
    } else {
        Ratio { num: s.trips_cancelled, den: s.trips_scheduled }
    }
}

/// The word that stands for a status in an answer.
pub open spec fn status_word(s: NetworkStatus) -> Seq<char> {
    match s {
        NetworkStatus::Normal => "normal"@,
        NetworkStatus::Degraded => "degraded"@,
        NetworkStatus::Critical => "critical"@,
    }
}

impl StatusService {
    /// Whether `c` tells of a commune by its counts.
    pub open spec fn tells_commune(
        self,
        c: CommuneStatus,
        commune: Seq<char>,
        s: NetworkStats,
    ) -> bool {
        &&& c.commune@ == commune
        &&& c.trips_scheduled == s.trips_scheduled
        &&& c.trips_cancelled == s.trips_cancelled
        &&& c.cancelled_ratio == share_in(s)
        &&& c.status == status_by_share(
            s.trips_scheduled,
            s.trips_cancelled,
            share_in(s),
            self.network,
        )
        &&& c.status_label@ == c.status.label_text()
    }

    /// How a commune fares, by the counts made in the last cycle.
    pub fn commune_stats(&self, commune: &str) -> (r: Option<CommuneStatus>)
        ensures
            r is Some <==> counts_for(self.stats@, commune@) is Some,
            r matches Some(c) ==> self.tells_commune(
                c,
                commune@,
                counts_for(self.stats@, commune@)->0,
            ),
    {
        let ghost p = |s: NetworkStats| ascii_lowered(s.commune@) == ascii_lowered(commune@);
        let mut i: usize = 0;
        proof {
            reveal(Seq::filter);
            assert(self.stats@.take(0) =~= Seq::<NetworkStats>::empty());
        }
        while i < self.stats.len()
            invariant
                0 <= i <= self.stats@.len(),
                p == (|s: NetworkStats| ascii_lowered(s.commune@) == ascii_lowered(commune@)),
                self.stats@.take(i as int).filter(p).len() == 0,
            decreases self.stats@.len() - i,
        {
            let s = &self.stats[i];
            proof {
                reveal(Seq::filter);
                assert(self.stats@.take(i + 1).drop_last() =~= self.stats@.take(i as int));
                assert(self.stats@.take(i + 1).last() == *s);
            }
            if same_ignoring_case(&s.commune, commune) {
                proof {
                    crate::table::lemma_filter_concat(
                        self.stats@.take(i + 1),
                        self.stats@.skip(i + 1),
                        p,
                    );
                    assert(self.stats@.take(i + 1) + self.stats@.skip(i + 1) =~= self.stats@);
                }
                let share = if s.trips_scheduled == 0 {
                    Ratio { num: 0, den: 1 }
                } else {
                    Ratio { num: s.trips_cancelled, den: s.trips_scheduled }
                };
                return Some(
                    derive_commune_status(
                        CommuneStatus {
                            commune: commune.to_string(),
                            trips_scheduled: s.trips_scheduled,
                            trips_cancelled: s.trips_cancelled,
                            cancelled_ratio: share,
                            status: NetworkStatus::Normal,
                            status_label: String::new(),
                        },
                        self.network,
                    ),
                );
            }
            i = i + 1;
        }
        assert(self.stats@.take(self.stats@.len() as int) =~= self.stats@);
        None
    }

    /// Whether `n` tells of a commune by its counts.
    pub open spec fn is_context(
        self,
        n: NetworkContext,
        commune: Seq<char>,
        s: NetworkStats,
    ) -> bool {
        let status = status_by_share(
            s.trips_scheduled,
            s.trips_cancelled,
            share_in(s),
            self.network,
        );
        &&& n.commune@ == commune
        &&& n.status@ == status_word(status)
        &&& n.status_label@ == status.label_text()
        &&& n.cancelled_ratio == share_in(s)
        &&& n.trips_cancelled == s.trips_cancelled
        &&& n.trips_scheduled == s.trips_scheduled
    }

    /// Whether `n` tells how the network fares around a stop: nothing where the
    /// stop tells no commune, by its name or by its zone, or nothing is counted
    /// for it.
    pub open spec fn tells_around(self, n: Option<NetworkContext>, stop: StopRow) -> bool {
        match commune_of(stop) {
            None => n is None,
            Some(commune) => match counts_for(self.stats@, commune) {
                None => n is None,
                Some(s) => n matches Some(c) && self.is_context(c, commune, s),
            },
        }
    }

    /// How the network fares around a stop: the share of trips cancelled in its
    /// commune.
    pub fn network_context(&self, stop: &StopRow) -> (r: Option<NetworkContext>)
        ensures
            self.tells_around(r, *stop),
    {
        let commune = match commune_of_stop(stop) {
            Some(c) => c,
            None => {
                return None;
            },
        };
        match self.commune_stats(&commune) {
            Some(c) => {
                let word = match c.status {
                    NetworkStatus::Normal => "normal",
                    NetworkStatus::Degraded => "degraded",
                    NetworkStatus::Critical => "critical",
                };
                Some(
                    NetworkContext {
                        commune: c.commune,
                        status: word.to_string(),
                        status_label: c.status_label,
                        cancelled_ratio: c.cancelled_ratio,
                        trips_cancelled: c.trips_cancelled,
                        trips_scheduled: c.trips_scheduled,
                    },
                )
            },
            None => None,
        }
    }

    // The planned departures, crossed with what was observed.

    /// The stops whose departures are those of a stop: the stop itself and its
    /// served platforms.
    pub open spec fn platforms(self, stop_id: Seq<char>) -> Seq<Stop> {
        ordered(
            self.repo.stops@.filter(
                |s: StopRow| self.repo.belongs_to(s, stop_id),
            ).map_values(|s: StopRow| s.as_stop()),
            by_name(),
        )
    }

    /// The next planned departures of a stop.
    pub open spec fn planned(
        self,
        stop_id: Seq<char>,
        services: Seq<String>,
        now: LocalDateTime,
    ) -> Seq<ScheduledDeparture> {
        at_most(
            ordered(
                calls_of(self.repo, self.platforms(stop_id), services, now.secs_of_day()),
                by_departure(),
            ),
            MAX_DEPARTURES as int,
        )
    }

    /// A planned departure with what is known of it: observed where a prediction
    /// came, cancelled where the stop is skipped or an alert cancels the trip.
    pub open spec fn departure_at(
        self,
        sd: ScheduledDeparture,
        stop_id: Seq<char>,
        services: Seq<String>,
        now: LocalDateTime,
    ) -> Departure {
        let seen = hit(self.observed_at(stop_id, services), sd.trip_id@, sd.stop_sequence);
        Departure {
            trip_id: sd.trip_id,
            headsign: sd.headsign,
            scheduled: instant_on(now, sd.departure_secs as int) as i64,
            observed: match seen {
                Some(o) => match o.predicted_ms {
                    Some(ms) => instant_at(ms),
                    None => None,
                },
                None => None,
            },
            cancelled: (seen matches Some(o) && o.schedule_relationship == SKIPPED) || is_listed(
                self.cancelled_at(stop_id),
                sd.trip_id@,
            ),
        }
    }

    /// The departures of a line at a stop.
    pub open spec fn line_departures(
        self,
        route_id: Seq<char>,
        stop_id: Seq<char>,
        services: Seq<String>,
        now: LocalDateTime,
    ) -> Seq<Departure> {
        self.planned(stop_id, services, now).filter(
            |sd: ScheduledDeparture| sd.route_id@ == route_id,
        ).map_values(|sd: ScheduledDeparture| self.departure_at(sd, stop_id, services, now))
    }

    /// The lines of the planned departures that the timetable knows, in the order
    /// in which they first occur.
    pub open spec fn known_lines(
        self,
        stop_id: Seq<char>,
        services: Seq<String>,
        now: LocalDateTime,
    ) -> Seq<Seq<char>> {
        lines_in(self.planned(stop_id, services, now)).filter(
            |id: Seq<char>| GtfsRepo::route_row(self.repo.routes@, id) is Some,
        )
    }

    /// Whether the data are recent enough at `utc_secs` to say anything.
    pub open spec fn is_fresh(self, services: Seq<String>, utc_secs: int) -> bool {
        &&& services.len() > 0
        &&& self.feed_age(utc_secs) matches Some(a) && a <= self.stale_after
    }

    /// Whether `list` tells of the known lines, in their order.
    pub open spec fn tells_lines(
        self,
        list: Seq<LineStatus>,
        stop_id: Seq<char>,
        services: Seq<String>,
        now: LocalDateTime,
        utc_secs: int,
    ) -> bool {
        let ids = self.known_lines(stop_id, services, now);
        &&& list.len() == ids.len()
        &&& forall|i: int|
            0 <= i < list.len() ==> self.tells_line(
                #[trigger] list[i],
                ids[i],
                stop_id,
                services,
                now,
                utc_secs,
            )
    }

    /// Whether `l` tells of a line at a stop.
    pub open spec fn tells_line(
        self,
        l: LineStatus,
        route_id: Seq<char>,
        stop_id: Seq<char>,
        services: Seq<String>,
        now: LocalDateTime,
        utc_secs: int,
    ) -> bool {
        &&& l.line == GtfsRepo::route_row(self.repo.routes@, route_id)->0.as_line()
        &&& l.departures@ == self.line_departures(route_id, stop_id, services, now)
        &&& is_judged(
            l,
            self.is_fresh(services, utc_secs),
            line_message(self.stopping_alerts(), route_id),
            self.thresholds,
        )
    }

    /// Whether `st` is the status of a stop whose services are given, at `now` on
    /// a Brussels clock, `utc_ms` milliseconds from 1970-01-01T00:00:00 UTC.
    pub open spec fn is_status(
        self,
        st: StopStatus,
        stop_id: Seq<char>,
        services: Seq<String>,
        now: LocalDateTime,
        utc_ms: i64,
    ) -> bool {
        let utc_secs = utc_ms as int / 1000;
        let row = GtfsRepo::stop_row(self.repo.stops@, stop_id);
        &&& row matches Some(s) && st.stop == s.as_stop()
        &&& exists|list: Seq<LineStatus>| #[trigger]
            self.tells_lines(list, stop_id, services, now, utc_secs) && st.lines@ == ordered(
                list,
                by_line_name(),
            )
        &&& st.advice@ == advice_text(gravest(st.lines@))
        &&& services.len() > 0 && self.feed_age(utc_secs) is Some ==> {
            let age = self.feed_age(utc_secs)->0;
            &&& st.feed_age_secs matches Some(a) && a == age
            &&& st.last_updated matches Some(t) && t == utc_ms - age * 1000
        }
        &&& !(services.len() > 0 && self.feed_age(utc_secs) is Some) ==> st.feed_age_secs is None
            && st.last_updated is None
        &&& self.tells_around(st.network, row->0)
    }
}

fn find_hit<'a>(rt: &'a [Observation], trip_id: &str, stop_sequence: i64) -> (r: Option<
    &'a Observation,
>)
    ensures
        r is Some <==> hit(rt@, trip_id@, stop_sequence) is Some,
        r matches Some(o) ==> *o == hit(rt@, trip_id@, stop_sequence)->0,
{
    let ghost p = |o: Observation| o.trip_id@ == trip_id@ && o.stop_sequence == stop_sequence;
    let mut best: Option<usize> = None;
    let mut i: usize = 0;
    proof {
        reveal(Seq::filter);
        assert(rt@.take(0) =~= Seq::<Observation>::empty());
    }
    while i < rt.len()
        invariant
            0 <= i <= rt@.len(),
            p == (|o: Observation| o.trip_id@ == trip_id@ && o.stop_sequence == stop_sequence),
            best is Some <==> rt@.take(i as int).filter(p).len() > 0,
            best matches Some(b) ==> b < i && rt@[b as int] == rt@.take(i as int).filter(p).last(),
        decreases rt@.len() - i,
    {
        proof {
            reveal(Seq::filter);
            assert(rt@.take(i + 1).drop_last() =~= rt@.take(i as int));
            assert(rt@.take(i + 1).last() == rt@[i as int]);
        }
        if rt[i].stop_sequence == stop_sequence && same_text(&rt[i].trip_id, trip_id) {
            best = Some(i);
        }
        i = i + 1;
    }
    assert(rt@.take(rt@.len() as int) =~= rt@);
    match best {
        Some(b) => Some(&rt[b]),
        None => None,
    }
}

proof fn lemma_calls_in_window(
    repo: GtfsRepo,
    stops: Seq<Stop>,
    services: Seq<String>,
    from_secs: int,
)
    ensures
        forall|i: int|
            0 <= i < calls_of(repo, stops, services, from_secs).len() ==> from_secs <= (
            #[trigger] calls_of(repo, stops, services, from_secs)[i]).departure_secs <= from_secs
                + HORIZON_MIN * 60,
    decreases stops.len(),
{
    if stops.len() > 0 {
        let before = calls_of(repo, stops.drop_last(), services, from_secs);
        lemma_calls_in_window(repo, stops.drop_last(), services, from_secs);
        let stop_id = stops.last().stop_id@;
        let h = HORIZON_MIN * 60;
        let within = repo.departures_within(stop_id, services, from_secs, h);
        let sorted = ordered(within, by_departure());
        crate::order::ordered_keeps_items(within, by_departure());
        assert forall|k: int| 0 <= k < sorted.len() implies from_secs <= (
        #[trigger] sorted[k]).departure_secs <= from_secs + h by {
            crate::timetable::lemma_departure_from(
                repo,
                stop_id,
                services,
                from_secs,
                h,
                k,
            );
        }
        let all = calls_of(repo, stops, services, from_secs);
        assert forall|i: int| 0 <= i < all.len() implies from_secs <= (
        #[trigger] all[i]).departure_secs <= from_secs + h by {
            if i < before.len() {
                assert(all[i] == before[i]);
            } else {
                assert(all[i] == sorted[i - before.len()]);
            }
        }
    }
}

proof fn lemma_planned_in_window(
    service: StatusService,
    stop_id: Seq<char>,
    services: Seq<String>,
    now: LocalDateTime,
)
    ensures
        forall|i: int|
            0 <= i < service.planned(stop_id, services, now).len() ==> now.secs_of_day() <= (
            #[trigger] service.planned(stop_id, services, now)[i]).departure_secs
                <= now.secs_of_day() + HORIZON_MIN * 60,
{
    let calls = calls_of(service.repo, service.platforms(stop_id), services, now.secs_of_day());
    lemma_calls_in_window(
        service.repo,
        service.platforms(stop_id),
        services,
        now.secs_of_day(),
    );
    let sorted = ordered(calls, by_departure());
    crate::order::ordered_keeps_items(calls, by_departure());
    crate::order::ordered_has_the_same_items(calls, by_departure());
    let planned = service.planned(stop_id, services, now);
    assert forall|i: int| 0 <= i < planned.len() implies now.secs_of_day() <= (
    #[trigger] planned[i]).departure_secs <= now.secs_of_day() + HORIZON_MIN * 60 by {
        assert(planned[i] == sorted[i]);
        assert(sorted.contains(sorted[i]));
        assert(calls.contains(sorted[i]));
        let k = choose|k: int| 0 <= k < calls.len() && calls[k] == sorted[i];
        assert(calls[k].departure_secs == planned[i].departure_secs);
    }
}

fn has_line(lines: &Vec<String>, route_id: &str) -> (r: bool)
    ensures
        r == lines.deep_view().contains(route_id@),
{
    let mut i: usize = 0;
    while i < lines.len()
        invariant
            0 <= i <= lines@.len(),
            forall|k: int| 0 <= k < i ==> (#[trigger] lines@[k])@ != route_id@,
        decreases lines@.len() - i,
    {
        if same_text(&lines[i], route_id) {
            assert(lines.deep_view()[i as int] == route_id@);
            return true;
        }
        i = i + 1;
    }
    assert forall|k: int| 0 <= k < lines.deep_view().len() implies #[trigger] lines.deep_view()[k]
        != route_id@ by {
        assert(lines.deep_view()[k] == lines@[k]@);
    }
    false
}

fn lines_of(planned: &[ScheduledDeparture]) -> (r: Vec<String>)
    ensures
        r.deep_view() == lines_in(planned@),
{
    let mut lines: Vec<String> = Vec::new();
    let mut i: usize = 0;
    assert(planned@.take(0) =~= Seq::<ScheduledDeparture>::empty());
    assert(lines.deep_view() =~= lines_in(planned@.take(0)));
    while i < planned.len()
        invariant
            0 <= i <= planned@.len(),
            lines.deep_view() == lines_in(planned@.take(i as int)),
        decreases planned@.len() - i,
    {
        let ghost before = lines.deep_view();
        proof {
            assert(planned@.take(i + 1).drop_last() =~= planned@.take(i as int));
            assert(planned@.take(i + 1).last() == planned@[i as int]);
        }
        let route_id = &planned[i].route_id;
        if !has_line(&lines, route_id) {
            lines.push(route_id.clone());
            assert(lines.deep_view() =~= before.push(route_id@));
        }
        i = i + 1;
    }
    assert(planned@.take(planned@.len() as int) =~= planned@);
    lines
}

impl StatusService {
    /// The next planned departures of a stop, and of its served platforms.
    fn plan(&self, stop_id: &str, services: &[String], now: LocalDateTime) -> (r: Vec<
        ScheduledDeparture,
    >)
        requires
            now.wf(),
        ensures
            r@ == self.planned(stop_id@, services@, now),
    {
        let now_secs: i64 = (now.hour * 3600 + now.minute * 60 + now.second) as i64;
        let stops = self.repo.station_stops(stop_id);
        let mut calls: Vec<ScheduledDeparture> = Vec::new();
        let mut i: usize = 0;
        assert(stops@.take(0) =~= Seq::<Stop>::empty());
        assert(calls@ =~= calls_of(self.repo, stops@.take(0), services@, now_secs as int));
        while i < stops.len()
            invariant
                0 <= i <= stops@.len(),
                0 <= now_secs < 86_400,
                calls@ == calls_of(
                    self.repo,
                    stops@.take(i as int),
                    services@,
                    now_secs as int,
                ),
            decreases stops@.len() - i,
        {
            proof {
                assert(stops@.take(i + 1).drop_last() =~= stops@.take(i as int));
                assert(stops@.take(i + 1).last() == stops@[i as int]);
            }
            let mut found = self.repo.departures_at_stop(
                &stops[i].stop_id,
                services,
                now_secs,
                HORIZON_MIN * 60,
                MAX_DEPARTURES,
            );
            calls.append(&mut found);
            i = i + 1;
        }
        assert(stops@.take(stops@.len() as int) =~= stops@);
        let mut sorted = sort_by(calls, scheduled_before, Ghost(by_departure()));
        let ghost whole = sorted@;
        if sorted.len() > MAX_DEPARTURES {
            sorted.truncate(MAX_DEPARTURES);
            assert(sorted@ =~= whole.take(MAX_DEPARTURES as int));
        }
        sorted
    }

    /// A planned departure with what is known of it.
    fn cross(
        &self,
        sd: &ScheduledDeparture,
        rt: &[Observation],
        cancelled_trips: &[String],
        now: LocalDateTime,
        Ghost(stop_id): Ghost<Seq<char>>,
        Ghost(services): Ghost<Seq<String>>,
    ) -> (r: Departure)
        requires
            now.wf(),
            now.has_neighbours(),
            0 <= sd.departure_secs <= 90_000,
            rt@ == self.observed_at(stop_id, services),
            cancelled_trips@ == self.cancelled_at(stop_id),
        ensures
            r == self.departure_at(*sd, stop_id, services, now),
    {
        proof {
            lemma_day_range(now);
        }
        let seen = find_hit(rt, &sd.trip_id, sd.stop_sequence);
        let skipped = match seen {
            Some(o) => o.schedule_relationship == SKIPPED,
            None => false,
        };
        let observed: Option<i64> = match seen {
            Some(o) => match o.predicted_ms {
                Some(ms) => instant_of_millis(ms),
                None => None,
            },
            None => None,
        };
        let cancelled = skipped || crate::timetable::list_has(cancelled_trips, &sd.trip_id);
        Departure {
            trip_id: sd.trip_id.clone(),
            headsign: sd.headsign.clone(),
            scheduled: day_secs_to_utc(now, sd.departure_secs),
            observed,
            cancelled,
        }
    }

    /// The departures of a line, among the planned ones.
    fn cross_line(
        &self,
        route_id: &str,
        planned: &[ScheduledDeparture],
        rt: &[Observation],
        cancelled_trips: &[String],
        now: LocalDateTime,
        stop_id: &str,
        services: &[String],
    ) -> (r: Vec<Departure>)
        requires
            now.wf(),
            now.has_neighbours(),
            planned@ == self.planned(stop_id@, services@, now),
            rt@ == self.observed_at(stop_id@, services@),
            cancelled_trips@ == self.cancelled_at(stop_id@),
        ensures
            r@ == self.line_departures(route_id@, stop_id@, services@, now),
    {
        let ghost p = |sd: ScheduledDeparture| sd.route_id@ == route_id@;
        let ghost f = |sd: ScheduledDeparture| self.departure_at(sd, stop_id@, services@, now);
        let mut out: Vec<Departure> = Vec::new();
        let mut i: usize = 0;
        proof {
            lemma_planned_in_window(*self, stop_id@, services@, now);
            reveal(Seq::filter);
            assert(planned@.take(0) =~= Seq::<ScheduledDeparture>::empty());
            assert(out@ =~= planned@.take(0).filter(p).map_values(f));
        }
        while i < planned.len()
            invariant
                0 <= i <= planned@.len(),
                now.wf(),
                now.has_neighbours(),
                rt@ == self.observed_at(stop_id@, services@),
                cancelled_trips@ == self.cancelled_at(stop_id@),
                forall|k: int|
                    0 <= k < planned@.len() ==> 0 <= (#[trigger] planned@[k]).departure_secs
                        <= 90_000,
                p == (|sd: ScheduledDeparture| sd.route_id@ == route_id@),
                f == (|sd: ScheduledDeparture| self.departure_at(sd, stop_id@, services@, now)),
                out@ == planned@.take(i as int).filter(p).map_values(f),
            decreases planned@.len() - i,
        {
            let sd = &planned[i];
            proof {
                reveal(Seq::filter);
                assert(planned@.take(i + 1).drop_last() =~= planned@.take(i as int));
                assert(planned@.take(i + 1).last() == *sd);
            }
            if same_text(&sd.route_id, route_id) {
                out.push(
                    self.cross(
                        sd,
                        rt,
                        cancelled_trips,
                        now,
                        Ghost(stop_id@),
                        Ghost(services@),
                    ),
                );
            }
            assert(out@ =~= planned@.take(i + 1).filter(p).map_values(f));
            i = i + 1;
        }
        assert(planned@.take(planned@.len() as int) =~= planned@);
        out
    }

    /// The whole status of a stop: lines, next departures, verdicts and advice.
    ///
    /// `now` is the time on a Brussels clock, in which the timetable is written;
    /// `utc_ms` is the instant, in milliseconds from 1970-01-01T00:00:00 UTC.
    pub fn stop_status(&self, stop_id: &str, now: LocalDateTime, utc_ms: i64) -> (r: Result<
        Option<StopStatus>,
        GtfsError,
    >)
        requires
            self.wf(),
            self.feed_has_date(),
            now.wf(),
            now.has_neighbours(),
            MIN_SECS * 1000 <= utc_ms <= MAX_SECS * 1000,
        ensures
            ({
                let date = compact_date(now.year as int, now.month as int, now.day as int);
                let known = GtfsRepo::stop_row(self.repo.stops@, stop_id@) is Some;
                &&& r is Err <==> known && weekday_in(date) is None
                &&& 0 <= now.year <= 9999 ==> r is Ok
                &&& known && 0 <= now.year <= 9999 ==> weekday_in(date) == Some(
                    weekday(now.year as int, now.month as int, now.day as int),
                )
                &&& r matches Err(e) ==> e@ == date_fault(date)
                &&& r matches Ok(None) ==> !known
                &&& r matches Ok(Some(st)) ==> known && self.is_status(
                    st,
                    stop_id@,
                    self.repo.services_on(date, weekday_in(date)->0),
                    now,
                    utc_ms,
                )
            }),
    {
        let row = match self.repo.find_stop(stop_id) {
            Some(s) => s,
            None => {
                return Ok(None);
            },
        };
        let yyyymmdd = service_date(now);
        let services = match self.repo.active_services(&yyyymmdd) {
            Ok(services) => services,
            Err(e) => {
                return Err(e);
            },
        };
        let utc_secs: i64 = if utc_ms >= 0 {
            utc_ms / 1000
        } else {
            -((999 - utc_ms) / 1000)
        };
        assert(utc_secs == utc_ms as int / 1000);
        let (rt, feed_age) = self.latest_rt_for_stop(stop_id, &services, utc_secs);
        let rt_fresh = match feed_age {
            Some(a) => a <= self.stale_after,
            None => false,
        };
        assert(rt_fresh == self.is_fresh(services@, utc_secs as int));
        let alerts = self.active_alerts_for_stop(stop_id);
        let planned = self.plan(stop_id, &services, now);
        let ids = lines_of(&planned);
        let ghost all = lines_in(planned@);
        let ghost p = |id: Seq<char>| GtfsRepo::route_row(self.repo.routes@, id) is Some;
        let mut lines: Vec<LineStatus> = Vec::new();
        let mut i: usize = 0;
        proof {
            reveal(Seq::filter);
            assert(all.take(0) =~= Seq::<Seq<char>>::empty());
        }
        while i < ids.len()
            invariant
                0 <= i <= ids@.len(),
                self.wf(),
                now.wf(),
                now.has_neighbours(),
                all == ids.deep_view(),
                planned@ == self.planned(stop_id@, services@, now),
                rt@ == self.observed_at(stop_id@, services@),
                alerts.cancelled_trips@ == self.cancelled_at(stop_id@),
                alerts.no_service@ == self.stopping_alerts(),
                rt_fresh == self.is_fresh(services@, utc_secs as int),
                p == (|id: Seq<char>| GtfsRepo::route_row(self.repo.routes@, id) is Some),
                lines@.len() == all.take(i as int).filter(p).len(),
                forall|k: int|
                    0 <= k < lines@.len() ==> self.tells_line(
                        #[trigger] lines@[k],
                        all.take(i as int).filter(p)[k],
                        stop_id@,
                        services@,
                        now,
                        utc_secs as int,
                    ),
            decreases ids@.len() - i,
        {
            let route_id = &ids[i];
            proof {
                reveal(Seq::filter);
                assert(all.take(i + 1).drop_last() =~= all.take(i as int));
                assert(all.take(i + 1).last() == route_id@);
            }
            if let Some(route) = self.repo.route(route_id) {
                let departures = self.cross_line(
                    route_id,
                    &planned,
                    &rt,
                    &alerts.cancelled_trips,
                    now,
                    stop_id,
                    &services,
                );
                let severe = alerts.message_for(route_id);
                let message: Option<&str> = match &severe {
                    Some(m) => Some(m.as_str()),
                    None => None,
                };
                lines.push(
                    make_line_status(&route, departures, rt_fresh, message, self.thresholds),
                );
            }
            i = i + 1;
        }
        assert(all.take(all.len() as int) =~= all);
        assert(self.tells_lines(lines@, stop_id@, services@, now, utc_secs as int));
        let sorted = sort_by(lines, line_name_before, Ghost(by_line_name()));
        let network = self.network_context(row);
        let last_updated: Option<i64> = match feed_age {
            Some(a) => Some((utc_ms as i128 - a as i128 * 1000) as i64),
            None => None,
        };
        let age: Option<u64> = match feed_age {
            Some(a) => Some(a as u64),
            None => None,
        };
        Ok(Some(build_stop_status(row.to_stop(), sorted, last_updated, age, network)))
    }
}

/// An alert that names trips stops no line.
pub proof fn an_alert_on_trips_stops_no_line(archive: Archive, a: AlertRecord)
    requires
        names_trips(archive, a),
    ensures
        !stops_lines(archive, a),
{
}

/// A line with a departure that runs is not told to be stopped, unless an alert
/// of the newest feed without trips of its own names the line.
pub proof fn a_running_line_is_stopped_by_no_trip(
    service: StatusService,
    l: LineStatus,
    route_id: Seq<char>,
    stop_id: Seq<char>,
    services: Seq<String>,
    now: LocalDateTime,
    utc_secs: int,
    running: int,
)
    requires
        service.tells_line(l, route_id, stop_id, services, now, utc_secs),
        0 <= running < l.departures@.len(),
        !l.departures@[running].cancelled,
        forall|i: int|
            0 <= i < service.archive.alerts@.len() && names_line(
                #[trigger] service.archive.alerts@[i],
                route_id,
            ) ==> names_trips(service.archive, service.archive.alerts@[i]),
    ensures
        l.status != crate::domain::ServiceStatus::Stopped,
{
    let q = |a: AlertRecord| stops_lines(service.archive, a);
    let p = |a: AlertRecord| names_line(a, route_id);
    let alerts = service.archive.alerts@;
    crate::table::lemma_filter_items(alerts, q);
    let stopping = service.stopping_alerts();
    assert forall|i: int| 0 <= i < stopping.len() implies !p(#[trigger] stopping[i]) by {
        assert(q(stopping[i]) && alerts.contains(stopping[i]));
        let k = choose|k: int| 0 <= k < alerts.len() && alerts[k] == stopping[i];
        if p(stopping[i]) {
            assert(names_trips(service.archive, alerts[k]));
        }
    }
    crate::table::lemma_filter_all(stopping, p);
    assert(line_message(stopping, route_id) is None);
    crate::domain::one_cancelled_trip_does_not_stop_the_line(
        l.departures@,
        service.is_fresh(services, utc_secs),
        service.thresholds,
        running,
    );
}

proof fn lemma_lines_occur(planned: Seq<ScheduledDeparture>, id: Seq<char>)
    requires
        lines_in(planned).contains(id),
    ensures
        exists|k: int| 0 <= k < planned.len() && (#[trigger] planned[k]).route_id@ == id,
    decreases planned.len(),
{
    if planned.len() > 0 {
        let t = planned.drop_last();
        let before = lines_in(t);
        if before.contains(id) {
            lemma_lines_occur(t, id);
            let k = choose|k: int| 0 <= k < t.len() && (#[trigger] t[k]).route_id@ == id;
            assert(planned[k] == t[k]);
        } else {
            let i = choose|i: int| 0 <= i < lines_in(planned).len() && lines_in(planned)[i] == id;
            if i < before.len() {
                assert(before[i] == id);
            }
            assert(planned[planned.len() - 1].route_id@ == id);
        }
    }
}

pub(crate) proof fn lemma_line_occurs(planned: Seq<ScheduledDeparture>, id: Seq<char>) -> (k: int)
    requires
        lines_in(planned).contains(id),
    ensures
        0 <= k < planned.len(),
        planned[k].route_id@ == id,
{
    lemma_lines_occur(planned, id);
    choose|k: int| 0 <= k < planned.len() && (#[trigger] planned[k]).route_id@ == id
}

/// Every line that is told of has a departure.
pub proof fn every_line_told_has_a_departure(
    service: StatusService,
    list: Seq<LineStatus>,
    stop_id: Seq<char>,
    services: Seq<String>,
    now: LocalDateTime,
    utc_secs: int,
    i: int,
)
    requires
        service.tells_lines(list, stop_id, services, now, utc_secs),
        0 <= i < list.len(),
    ensures
        list[i].departures@.len() > 0,
{
    let planned = service.planned(stop_id, services, now);
    let p = |id: Seq<char>| GtfsRepo::route_row(service.repo.routes@, id) is Some;
    let ids = service.known_lines(stop_id, services, now);
    crate::table::lemma_filter_items(lines_in(planned), p);
    assert(lines_in(planned).contains(ids[i]));
    lemma_lines_occur(planned, ids[i]);
    let k = choose|k: int| 0 <= k < planned.len() && (#[trigger] planned[k]).route_id@ == ids[i];
    let q = |sd: ScheduledDeparture| sd.route_id@ == ids[i];
    crate::table::lemma_filter_items(planned, q);
    assert(planned.contains(planned[k]) && q(planned[k]));
    assert(planned.filter(q).contains(planned[k]));
    assert(service.tells_line(list[i], ids[i], stop_id, services, now, utc_secs));
}

/// Without fresh data every line that is told of is unknown, never stopped.
pub proof fn stale_data_make_every_line_unknown(
    service: StatusService,
    list: Seq<LineStatus>,
    stop_id: Seq<char>,
    services: Seq<String>,
    now: LocalDateTime,
    utc_secs: int,
    i: int,
)
    requires
        service.tells_lines(list, stop_id, services, now, utc_secs),
        !service.is_fresh(services, utc_secs),
        0 <= i < list.len(),
    ensures
        list[i].status == crate::domain::ServiceStatus::Unknown,
{
    every_line_told_has_a_departure(service, list, stop_id, services, now, utc_secs, i);
    let ids = service.known_lines(stop_id, services, now);
    assert(service.tells_line(list[i], ids[i], stop_id, services, now, utc_secs));
}

/// The departures that are looked at leave within the hour, and there are twelve
/// at most.
pub proof fn departures_looked_at_leave_within_the_hour(
    service: StatusService,
    stop_id: Seq<char>,
    services: Seq<String>,
    now: LocalDateTime,
    i: int,
)
    requires
        0 <= i < service.planned(stop_id, services, now).len(),
    ensures
        service.planned(stop_id, services, now).len() <= MAX_DEPARTURES,
        now.secs_of_day() <= service.planned(stop_id, services, now)[i].departure_secs
            <= now.secs_of_day() + 3600,
{
    lemma_planned_in_window(service, stop_id, services, now);
}

/// The lines of an answer come in the order of their short names.
pub proof fn lines_come_by_short_name(list: Seq<LineStatus>, i: int, j: int)
    requires
        0 <= i < j < list.len(),
    ensures
        !text_lt(
            ordered(list, by_line_name())[j].line.short_name@,
            ordered(list, by_line_name())[i].line.short_name@,
        ),
{
    crate::timetable::lemma_texts_compare();
    crate::order::ordered_is_in_order(list, by_line_name());
}

/// A departure is told to be cancelled exactly when its stop is skipped or the
/// newest alert feed cancels its trip: the other trips of the line are not.
pub proof fn only_the_trips_concerned_are_cancelled(
    service: StatusService,
    sd: ScheduledDeparture,
    stop_id: Seq<char>,
    services: Seq<String>,
    now: LocalDateTime,
)
    ensures
        service.departure_at(sd, stop_id, services, now).cancelled <==> {
            ||| (hit(
                service.observed_at(stop_id, services),
                sd.trip_id@,
                sd.stop_sequence,
            ) matches Some(o) && o.schedule_relationship == SKIPPED)
            ||| exists|i: int|
                0 <= i < service.archive.alert_trips@.len() && service.cancels_at(
                    #[trigger] service.archive.alert_trips@[i],
                    stop_id,
                ) && service.archive.alert_trips@[i].trip_id@ == sd.trip_id@
        },
{
    let links = service.archive.alert_trips@;
    let p = |x: AlertTrip| service.cancels_at(x, stop_id);
    let kept = links.filter(p);
    let trips = service.cancelled_at(stop_id);
    crate::table::lemma_filter_items(links, p);
    if is_listed(trips, sd.trip_id@) {
        let k = choose|k: int| 0 <= k < trips.len() && (#[trigger] trips[k])@ == sd.trip_id@;
        assert(p(kept[k]) && links.contains(kept[k]));
        let i = choose|i: int| 0 <= i < links.len() && links[i] == kept[k];
        assert(service.cancels_at(links[i], stop_id));
    }
    if exists|i: int|
        0 <= i < links.len() && service.cancels_at(#[trigger] links[i], stop_id)
            && links[i].trip_id@ == sd.trip_id@ {
        let i = choose|i: int|
            0 <= i < links.len() && service.cancels_at(#[trigger] links[i], stop_id)
                && links[i].trip_id@ == sd.trip_id@;
        assert(links.contains(links[i]) && p(links[i]));
        assert(kept.contains(links[i]));
        let k = choose|k: int| 0 <= k < kept.len() && kept[k] == links[i];
        assert(trips[k]@ == sd.trip_id@);
    }
}

/// At a station a departure is told to be cancelled where the newest alert feed
/// cancels its trip and the trip calls at one of the child platforms.
pub proof fn a_trip_cancelled_at_a_platform_is_told(
    service: StatusService,
    sd: ScheduledDeparture,
    stop_id: Seq<char>,
    services: Seq<String>,
    now: LocalDateTime,
    link: int,
    platform: int,
)
    requires
        0 <= link < service.archive.alert_trips@.len(),
        cancels(service.archive, service.archive.alert_trips@[link]),
        service.archive.alert_trips@[link].trip_id@ == sd.trip_id@,
        0 <= platform < service.repo.stops@.len(),
        is_platform_of(service.repo.stops@[platform], stop_id),
        trip_calls_at(service.repo, sd.trip_id@, service.repo.stops@[platform].stop_id@),
    ensures
        service.departure_at(sd, stop_id, services, now).cancelled,
{
    only_the_trips_concerned_are_cancelled(service, sd, stop_id, services, now);
    assert(trip_serves(service.repo, sd.trip_id@, stop_id));
    assert(service.cancels_at(service.archive.alert_trips@[link], stop_id));
}

} // verus!
