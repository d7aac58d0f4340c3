use chrono::{DateTime, Utc};
use transitpulse::archive::{AlertRecord, AlertTrip, Archive, Observation};
use transitpulse::calendar::LocalDateTime;
use transitpulse::domain::{Degrees, EvidenceKind, ServiceStatus, Thresholds};
use transitpulse::gtfs::{weekday_column, GtfsError};
use transitpulse::loader::{CalendarRow, RouteRow, StopRow, StopTimeRow, TripRow};
use transitpulse::network::{CommuneStatus, NetworkStats, NetworkStatus, NetworkThresholds};
use transitpulse::ratio::Ratio;
use transitpulse::status::{
    cancelled_trips, day_secs_to_utc, derive_commune_status, service_date, StatusService,
};
use transitpulse::timetable::GtfsRepo;

const FEED_TS: i64 = 1_790_150_100;
const UTC_MS: i64 = 1_790_150_130_500;

fn at(year: i32, month: u32, day: u32, hour: u32, minute: u32) -> LocalDateTime {
    LocalDateTime {
        year,
        month,
        day,
        hour,
        minute,
        second: 0,
    }
}

fn utc(ms: i64) -> DateTime<Utc> {
    DateTime::from_timestamp_millis(ms).unwrap()
}

fn stop(stop_id: &str, name: &str) -> StopRow {
    StopRow {
        stop_id: stop_id.into(),
        stop_name: name.into(),
        stop_desc: None,
        lat: Degrees {
            bits: 50.64f64.to_bits(),
        },
        lon: Degrees {
            bits: 5.57f64.to_bits(),
        },
        wheelchair: None,
        zone_id: None,
        parent_station: None,
    }
}

fn trip(trip_id: &str) -> TripRow {
    TripRow {
        trip_id: trip_id.into(),
        route_id: "gr:tec:L0001".into(),
        service_id: "svc".into(),
        headsign: "Direc".into(),
        direction: None,
    }
}

fn stop_time(trip_id: &str, secs: i64) -> StopTimeRow {
    StopTimeRow {
        trip_id: trip_id.into(),
        stop_sequence: 1,
        stop_id: "A".into(),
        arrival_secs: None,
        departure_secs: Some(secs),
    }
}

fn observation(trip_id: &str, predicted_ms: Option<i64>, relationship: i64) -> Observation {
    Observation {
        feed_ts: FEED_TS,
        captured_at: FEED_TS,
        trip_id: trip_id.into(),
        route_id: Some("gr:tec:L0001".into()),
        stop_id: "A".into(),
        stop_sequence: 1,
        scheduled_ms: None,
        predicted_ms,
        delay_s: None,
        schedule_relationship: relationship,
    }
}

fn alert(effect: i64) -> AlertRecord {
    AlertRecord {
        feed_ts: FEED_TS,
        captured_at: FEED_TS,
        alert_id: "rs:tec:1".into(),
        agency_id: Some("tec".into()),
        effect: Some(effect),
        severity: Some(2),
        cause: Some(2),
        route_ids: "gr:tec:L0001".into(),
        stop_ids: String::new(),
        header_fr: Some("Annulations".into()),
        description_fr: Some("Annulation voyage".into()),
        active_from: None,
        active_to: None,
    }
}

fn timetable() -> GtfsRepo {
    GtfsRepo::open(
        &[stop("A", "LIEGE Test")],
        &[RouteRow {
            route_id: "gr:tec:L0001".into(),
            short_name: "1".into(),
            long_name: "Test".into(),
            route_type: 3,
            color: None,
        }],
        &[trip("t1"), trip("t2")],
        &[stop_time("t1", 36_000), stop_time("t2", 37_800)],
        &[CalendarRow {
            service_id: "svc".into(),
            monday: 1,
            tuesday: 1,
            wednesday: 1,
            thursday: 1,
            friday: 1,
            saturday: 1,
            sunday: 1,
            start_date: "20200101".into(),
            end_date: "20301231".into(),
        }],
        &[],
    )
}

fn fixture() -> StatusService {
    let mut archive = Archive::open_in_memory();
    archive.insert_observations(&[
        observation("t1", None, 1),
        Observation {
            scheduled_ms: Some(37_800_000),
            delay_s: Some(60),
            ..observation("t2", Some(37_860_000), 0)
        },
    ]);
    archive.insert_alerts(&[alert(1)]);
    archive.insert_alert_trips(&[AlertTrip {
        feed_ts: FEED_TS,
        alert_id: "rs:tec:1".into(),
        trip_id: "t1".into(),
        start_date: None,
    }]);
    StatusService::open(timetable(), archive, vec![])
}

#[test]
fn alerte_ciblant_une_course_ne_rend_pas_la_ligne_arretee() {
    let svc = fixture();
    let now = at(2026, 9, 23, 9, 55);
    let st = svc.stop_status("A", now, UTC_MS).unwrap().unwrap();
    assert_eq!(st.lines.len(), 1, "une seule ligne");

    let line = &st.lines[0];
    assert_ne!(
        line.status,
        ServiceStatus::Stopped,
        "ligne ne doit pas être stoppée"
    );
    let cancelled = line
        .evidence
        .iter()
        .any(|e| e.kind == EvidenceKind::Cancelled);
    assert!(cancelled, "preuve d'annulation attendue");
    let t1 = line.departures.iter().find(|d| d.trip_id == "t1").unwrap();
    let t2 = line.departures.iter().find(|d| d.trip_id == "t2").unwrap();
    assert!(t1.cancelled, "t1 doit être annulée");
    assert!(!t2.cancelled, "t2 ne doit pas être annulée");
}

#[test]
fn date_de_service() {
    let d = at(2026, 9, 23, 8, 30);
    assert_eq!(service_date(d), "20260923");
    assert_eq!(weekday_column(&service_date(d)).unwrap(), "wednesday");
}

#[test]
fn conversion_secondes_vers_utc_gere_heure_ete() {
    let now = at(2026, 9, 23, 8, 0);
    let dt = utc(day_secs_to_utc(now, 5 * 3600 + 7 * 60));
    assert_eq!(dt.format("%H:%M").to_string(), "03:07");
}

#[test]
fn conversion_secondes_vers_utc_gere_heure_hiver() {
    let now = at(2026, 1, 15, 8, 0);
    let dt = utc(day_secs_to_utc(now, 5 * 3600 + 7 * 60));
    assert_eq!(dt.format("%H:%M").to_string(), "04:07");
}

#[test]
fn a_time_that_the_clock_skips_is_read_as_utc() {
    // On 2026-03-29 the clock goes from 02:00 to 03:00.
    let dt = utc(day_secs_to_utc(at(2026, 3, 29, 0, 0), 2 * 3600 + 1800));
    assert_eq!(dt.format("%F %H:%M").to_string(), "2026-03-29 02:30");
    // On 2026-10-25 it shows 02:30 twice: the first one counts.
    let dt = utc(day_secs_to_utc(at(2026, 10, 25, 0, 0), 2 * 3600 + 1800));
    assert_eq!(dt.format("%F %H:%M").to_string(), "2026-10-25 00:30");
    // A night trip runs into the next day.
    let dt = utc(day_secs_to_utc(at(2026, 9, 23, 0, 0), 25 * 3600));
    assert_eq!(dt.format("%F %H:%M").to_string(), "2026-09-23 23:00");
}

#[test]
fn the_clock_of_brussels_is_read() {
    assert_eq!(
        StatusService::now_brussels(1_790_150_130),
        LocalDateTime {
            year: 2026,
            month: 9,
            day: 23,
            hour: 9,
            minute: 55,
            second: 30,
        }
    );
    assert_eq!(
        StatusService::now_brussels(-1),
        LocalDateTime {
            year: 1970,
            month: 1,
            day: 1,
            hour: 0,
            minute: 59,
            second: 59,
        }
    );
}

#[test]
fn the_answer_tells_how_old_it_is() {
    let svc = fixture();
    let st = svc
        .stop_status("A", at(2026, 9, 23, 9, 55), UTC_MS)
        .unwrap()
        .unwrap();
    assert_eq!(st.feed_age_secs, Some(30));
    assert_eq!(st.last_updated, Some(UTC_MS - 30_000));
    assert_eq!(st.stop.name, "LIEGE Test");
    assert_eq!(
        st.advice,
        "Service fortement réduit : prévoyez un plan B."
    );
    assert!(st.network.is_none());
    let t2 = &st.lines[0].departures[1];
    assert_eq!(
        utc(t2.scheduled).format("%F %H:%M").to_string(),
        "2026-09-23 08:30"
    );
    assert_eq!(t2.observed, Some(37_860_000));
    assert_eq!(t2.headsign, "Direc");
}

#[test]
fn stale_data_leave_the_line_unknown() {
    let svc = fixture();
    let later = UTC_MS + 200_000;
    let st = svc
        .stop_status("A", at(2026, 9, 23, 9, 55), later)
        .unwrap()
        .unwrap();
    assert_eq!(st.lines[0].status, ServiceStatus::Unknown);
    let svc = svc.with_thresholds(Thresholds::default(), 1_000);
    let st = svc
        .stop_status("A", at(2026, 9, 23, 9, 55), later)
        .unwrap()
        .unwrap();
    assert_eq!(st.lines[0].status, ServiceStatus::Reduced);
}

#[test]
fn an_unknown_stop_has_no_status() {
    let svc = fixture();
    assert!(svc
        .stop_status("nowhere", at(2026, 9, 23, 9, 55), UTC_MS)
        .unwrap()
        .is_none());
}

#[test]
fn departures_outside_the_hour_are_not_shown() {
    let svc = fixture();
    let st = svc
        .stop_status("A", at(2026, 9, 23, 10, 1), UTC_MS)
        .unwrap()
        .unwrap();
    assert_eq!(st.lines[0].departures.len(), 1);
    let st = svc
        .stop_status("A", at(2026, 9, 23, 12, 0), UTC_MS)
        .unwrap()
        .unwrap();
    assert!(st.lines.is_empty());
    assert_eq!(
        st.advice,
        "Données manquantes : vérifiez un arrêt voisin."
    );
}

#[test]
fn an_alert_without_trips_stops_the_line() {
    let mut svc = fixture();
    svc.archive.alert_trips.clear();
    let st = svc
        .stop_status("A", at(2026, 9, 23, 9, 55), UTC_MS)
        .unwrap()
        .unwrap();
    assert_eq!(st.lines[0].status, ServiceStatus::Stopped);
    assert_eq!(st.lines[0].reason.as_deref(), Some("Annulations"));

    svc.archive.alerts[0].header_fr = None;
    let alerts = svc.active_alerts_for_stop("A");
    assert_eq!(
        alerts.message_for("gr:tec:L0001").as_deref(),
        Some("Annulation voyage")
    );
    svc.archive.alerts[0].description_fr = None;
    svc.archive.alerts[0].route_ids = "x,gr:tec:L0001".into();
    let alerts = svc.active_alerts_for_stop("A");
    assert_eq!(
        alerts.message_for("gr:tec:L0001").as_deref(),
        Some("Service interrompu")
    );
    assert_eq!(alerts.message_for(""), None);
    assert_eq!(alerts.message_for("gr:tec:L0002"), None);
}

#[test]
fn only_the_newest_alert_feed_counts() {
    let mut svc = fixture();
    assert_eq!(cancelled_trips(&svc.archive), vec!["t1"]);
    svc.archive.insert_alerts(&[AlertRecord {
        feed_ts: FEED_TS + 30,
        ..alert(4)
    }]);
    assert!(cancelled_trips(&svc.archive).is_empty());
    let alerts = svc.active_alerts_for_stop("A");
    assert!(alerts.no_service.is_empty());
    assert!(alerts.cancelled_trips.is_empty());
}

#[test]
fn only_the_newest_observations_count() {
    let mut svc = fixture();
    svc.archive.insert_observations(&[Observation {
        feed_ts: FEED_TS - 30,
        ..observation("t2", Some(1), 1)
    }]);
    let services = vec!["svc".to_string()];
    let (rt, age) = svc.latest_rt_for_stop("A", &services, FEED_TS + 7);
    assert_eq!(rt.len(), 2);
    assert_eq!(age, Some(7));
    let (rt, age) = svc.latest_rt_for_stop("A", &services, FEED_TS - 7);
    assert_eq!(rt.len(), 2);
    assert_eq!(age, Some(0));
    let (rt, age) = svc.latest_rt_for_stop("B", &services, FEED_TS + 7);
    assert!(rt.is_empty());
    assert_eq!(age, Some(7));
    let (rt, age) = svc.latest_rt_for_stop("A", &[], FEED_TS + 7);
    assert!(rt.is_empty());
    assert_eq!(age, None);
    assert!(svc.feed_is_dated());
}

#[test]
fn an_instant_without_a_date_is_not_observed() {
    let mut svc = fixture();
    for o in &mut svc.archive.observations {
        o.predicted_ms = Some(i64::MAX);
    }
    let st = svc
        .stop_status("A", at(2026, 9, 23, 9, 55), UTC_MS)
        .unwrap()
        .unwrap();
    assert_eq!(st.lines[0].departures[1].observed, None);
    let last = transitpulse::calendar::MAX_SECS * 1000 + 999;
    for (ms, observed) in [(last, Some(last)), (last + 1, None)] {
        for o in &mut svc.archive.observations {
            o.predicted_ms = Some(ms);
        }
        let st = svc
            .stop_status("A", at(2026, 9, 23, 9, 55), UTC_MS)
            .unwrap()
            .unwrap();
        assert_eq!(st.lines[0].departures[1].observed, observed);
    }
}

#[test]
fn the_network_around_the_stop_is_told() {
    let mut svc = fixture();
    svc.stats.push(NetworkStats {
        commune: "Liege".into(),
        trips_scheduled: 10,
        trips_cancelled: 6,
    });
    let n = svc.network_context(&stop("A", "LIEGE Test")).unwrap();
    assert_eq!(n.commune, "LIEGE");
    assert_eq!(n.status, "critical");
    assert_eq!(n.status_label, "critique");
    assert_eq!(n.cancelled_ratio, Ratio { num: 6, den: 10 });
    assert_eq!((n.trips_cancelled, n.trips_scheduled), (6, 10));
    assert!(svc.network_context(&stop("A", "")).is_none());
    assert!(svc.network_context(&stop("A", "HUY Gare")).is_none());
    // The zone stands in where the name tells no commune.
    let zoned = StopRow {
        zone_id: Some("LIEGE".into()),
        ..stop("A", "")
    };
    assert_eq!(svc.network_context(&zoned).unwrap().trips_cancelled, 6);
    svc.repo.stops = vec![zoned];
    let st = svc
        .stop_status("A", at(2026, 9, 23, 9, 55), UTC_MS)
        .unwrap()
        .unwrap();
    assert_eq!(st.network.unwrap().commune, "LIEGE");
    svc.repo.stops = vec![stop("A", "LIEGE Test")];
    assert_eq!(
        svc.commune_stats("lIEGE").unwrap().status,
        NetworkStatus::Critical
    );
}

#[test]
fn the_thresholds_are_applied_to_a_share_that_is_given() {
    let c = derive_commune_status(
        CommuneStatus {
            commune: "A".into(),
            trips_scheduled: 10,
            trips_cancelled: 5,
            cancelled_ratio: Ratio { num: 1, den: 4 },
            status: NetworkStatus::Normal,
            status_label: String::new(),
        },
        NetworkThresholds::default(),
    );
    assert_eq!(c.status, NetworkStatus::Degraded);
    assert_eq!(c.status_label, "dégradée");
}

#[test]
fn a_year_beyond_four_digits_has_no_service() {
    let svc = fixture();
    assert_eq!(
        svc.repo.active_services("+123450923"),
        Err(GtfsError::InvalidDate(
            "+123450923".into(),
            "premature end of input".into()
        ))
    );
}

#[test]
fn a_trip_cancelled_at_a_platform_is_cancelled_at_the_station() {
    let mut svc = fixture();
    // The trips call at a platform of the station alone; another stop is none.
    svc.repo.stops = vec![
        stop("S", "LIEGE Gare"),
        StopRow {
            parent_station: Some("S".into()),
            ..stop("A", "LIEGE Gare quai 1")
        },
        stop("B", "LIEGE Ailleurs"),
    ];
    assert_eq!(svc.active_alerts_for_stop("S").cancelled_trips, ["t1"]);
    assert_eq!(svc.active_alerts_for_stop("A").cancelled_trips, ["t1"]);
    assert!(svc.active_alerts_for_stop("B").cancelled_trips.is_empty());
    let st = svc
        .stop_status("S", at(2026, 9, 23, 9, 55), UTC_MS)
        .unwrap()
        .unwrap();
    let told: Vec<(&str, bool)> = st.lines[0]
        .departures
        .iter()
        .map(|d| (d.trip_id.as_str(), d.cancelled))
        .collect();
    assert_eq!(told, [("t1", true), ("t2", false)]);
}
