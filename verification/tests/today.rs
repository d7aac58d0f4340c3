use transitpulse::archive::{AlertRecord, AlertTrip, Archive, Observation};
use transitpulse::domain::Degrees;
use transitpulse::index::TextIndex;
use transitpulse::loader::{CalendarRow, StopRow, StopTimeRow, TripRow};
use transitpulse::network::{NetworkService, NetworkStats, NetworkThresholds};
use transitpulse::ratio::Ratio;
use transitpulse::realtime::{EFFECT_DETOUR, NO_DATA, SKIPPED};
use transitpulse::timetable::GtfsRepo;

fn stop(stop_id: &str, name: &str) -> StopRow {
    StopRow {
        stop_id: stop_id.into(),
        stop_name: name.into(),
        stop_desc: None,
        lat: Degrees {
            bits: 50.64f64.to_bits(),
        },
        lon: Degrees {
            bits: 5.57f64.to_bits(),
        },
        wheelchair: None,
        zone_id: None,
        parent_station: None,
    }
}

fn trip(trip_id: &str, service_id: &str) -> TripRow {
    TripRow {
        trip_id: trip_id.into(),
        route_id: "r".into(),
        service_id: service_id.into(),
        headsign: "".into(),
        direction: None,
    }
}

fn call(trip_id: &str, stop_sequence: i64, stop_id: &str) -> StopTimeRow {
    StopTimeRow {
        trip_id: trip_id.into(),
        stop_sequence,
        stop_id: stop_id.into(),
        arrival_secs: None,
        departure_secs: Some(36_000),
    }
}

fn service(service_id: &str, weekdays: i64, sunday: i64) -> CalendarRow {
    CalendarRow {
        service_id: service_id.into(),
        monday: weekdays,
        tuesday: weekdays,
        wednesday: weekdays,
        thursday: weekdays,
        friday: weekdays,
        saturday: 0,
        sunday,
        start_date: "20260101".into(),
        end_date: "20261231".into(),
    }
}

/// `t1` and `t2` serve Liège on weekdays, `t1` goes on to Huy; `t3` serves Liège
/// on Sundays, `t4` calls at a stop that is not known.
fn timetable() -> GtfsRepo {
    GtfsRepo::open(
        &[
            stop("A", "LIEGE Opéra"),
            stop("B", "LIEGE Guillemins"),
            stop("C", "HUY Gare"),
        ],
        &[],
        &[
            trip("t1", "week"),
            trip("t2", "week"),
            trip("t3", "sunday"),
            trip("t4", "week"),
        ],
        &[
            call("t1", 1, "A"),
            call("t1", 2, "B"),
            call("t1", 3, "C"),
            call("t2", 1, "A"),
            call("t3", 1, "A"),
            call("t4", 1, "Z"),
            call("t5", 1, "A"),
        ],
        &[service("week", 1, 0), service("sunday", 0, 1)],
        &[],
    )
}

fn observation(feed_ts: i64, trip_id: &str, relationship: i64) -> Observation {
    Observation {
        feed_ts,
        captured_at: feed_ts,
        trip_id: trip_id.into(),
        route_id: None,
        stop_id: "A".into(),
        stop_sequence: 1,
        scheduled_ms: None,
        predicted_ms: None,
        delay_s: None,
        schedule_relationship: relationship,
    }
}

fn alert(feed_ts: i64, alert_id: &str, effect: i64) -> AlertRecord {
    AlertRecord {
        feed_ts,
        captured_at: feed_ts,
        alert_id: alert_id.into(),
        agency_id: None,
        effect: Some(effect),
        severity: None,
        cause: None,
        route_ids: String::new(),
        stop_ids: String::new(),
        header_fr: None,
        description_fr: None,
        active_from: None,
        active_to: None,
    }
}

fn link(feed_ts: i64, alert_id: &str, trip_id: &str) -> AlertTrip {
    AlertTrip {
        feed_ts,
        alert_id: alert_id.into(),
        trip_id: trip_id.into(),
        start_date: None,
    }
}

fn counts(net: &NetworkService, commune: &str) -> Option<(i64, i64)> {
    net.commune(commune)
        .map(|c| (c.trips_scheduled, c.trips_cancelled))
}

fn services_on(repo: &GtfsRepo, date: &str) -> Vec<String> {
    repo.active_services(date).unwrap()
}

// 2026-09-23 is a Wednesday, 2026-09-27 a Sunday.

#[test]
fn a_skipped_stop_cancels_a_trip_of_the_day() {
    let repo = timetable();
    let archive = Archive::open(&[observation(7, "t2", SKIPPED)], &[], &[]);
    let mut net = NetworkService::open(Vec::new());
    assert_eq!(
        net.rebuild_stats(&repo, &archive, &services_on(&repo, "20260923")),
        2
    );
    assert_eq!(counts(&net, "LIEGE"), Some((2, 1)));
    assert_eq!(counts(&net, "HUY"), Some((1, 0)));
}

#[test]
fn only_the_trips_of_the_day_are_counted() {
    let repo = timetable();
    let archive = Archive::open_in_memory();
    let mut net = NetworkService::open(Vec::new());
    assert_eq!(
        net.rebuild_stats(&repo, &archive, &services_on(&repo, "20260927")),
        1
    );
    assert_eq!(counts(&net, "LIEGE"), Some((1, 0)));
    assert_eq!(counts(&net, "HUY"), None);
    // On a Saturday nothing runs, and no commune is counted.
    assert_eq!(
        net.rebuild_stats(&repo, &archive, &services_on(&repo, "20260926")),
        0
    );
    assert!(net.stats.is_empty());
}

#[test]
fn an_alert_of_the_newest_feed_cancels_a_trip() {
    let repo = timetable();
    let services = services_on(&repo, "20260923");
    let archive = Archive::open(
        &[],
        &[alert(6, "old", 1), alert(7, "a", 1), alert(7, "b", EFFECT_DETOUR)],
        &[link(6, "old", "t2"), link(7, "a", "t1"), link(7, "b", "t2")],
    );
    let mut net = NetworkService::open(Vec::new());
    net.rebuild_stats(&repo, &archive, &services);
    assert_eq!(counts(&net, "LIEGE"), Some((2, 1)));
    assert_eq!(counts(&net, "HUY"), Some((1, 1)));
}

#[test]
fn a_trip_is_cancelled_once_and_only_by_the_newest_feed() {
    let repo = timetable();
    let services = services_on(&repo, "20260923");
    let archive = Archive::open(
        &[
            observation(6, "t1", SKIPPED),
            observation(7, "t1", NO_DATA),
            observation(7, "t2", SKIPPED),
            observation(7, "t3", SKIPPED),
            observation(7, "gone", SKIPPED),
        ],
        &[alert(7, "a", 1)],
        &[link(7, "a", "t2")],
    );
    let mut net = NetworkService::open(Vec::new());
    net.rebuild_stats(&repo, &archive, &services);
    assert_eq!(counts(&net, "LIEGE"), Some((2, 1)));
    assert_eq!(counts(&net, "HUY"), Some((1, 0)));
}

#[test]
fn a_recount_keeps_the_thresholds_and_drops_the_old_counts() {
    let repo = timetable();
    let thresholds = NetworkThresholds {
        degraded_ratio: Ratio { num: 1, den: 4 },
        critical_ratio: Ratio { num: 3, den: 4 },
        min_annulled: 1,
    };
    let mut net = NetworkService::open(vec![NetworkStats {
        commune: "OLD".into(),
        trips_scheduled: 1,
        trips_cancelled: 1,
    }])
    .with_thresholds(thresholds);
    net.rebuild_stats(
        &repo,
        &Archive::open_in_memory(),
        &services_on(&repo, "20260923"),
    );
    assert_eq!(net.thresholds, thresholds);
    assert!(net.commune("OLD").is_none());
    assert!(net.stats.iter().all(|s| s.trips_cancelled == 0));
}

#[test]
fn a_text_is_found_at_its_first_place() {
    let texts: Vec<String> = (0..2000).map(|i| format!("gt:tec:{}", i % 1500)).collect();
    let index = TextIndex::new(texts);
    assert_eq!(index.find("gt:tec:0"), Some(0));
    assert_eq!(index.find("gt:tec:499"), Some(499));
    assert_eq!(index.find("gt:tec:1499"), Some(1499));
    assert_eq!(index.find("gt:tec:1500"), None);
    assert_eq!(index.find(""), None);
    assert_eq!(TextIndex::new(vec![String::new()]).find(""), Some(0));
}
