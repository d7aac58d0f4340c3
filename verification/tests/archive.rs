use transitpulse::archive::{AlertRecord, AlertTrip, Archive, Observation};

fn obs(feed_ts: i64, trip: &str, seq: i64) -> Observation {
    Observation {
        feed_ts,
        captured_at: feed_ts + 5,
        trip_id: trip.into(),
        route_id: Some("gr:tec:L1".into()),
        stop_id: "gs:tec:A".into(),
        stop_sequence: seq,
        scheduled_ms: Some(1_000),
        predicted_ms: Some(1_060),
        delay_s: Some(60),
        schedule_relationship: 0,
    }
}

fn link(feed_ts: i64, trip: &str) -> AlertTrip {
    AlertTrip {
        feed_ts,
        alert_id: "rs:tec:1".into(),
        trip_id: trip.into(),
        start_date: None,
    }
}

#[test]
fn insert_et_compte() {
    let mut a = Archive::open_in_memory();
    assert_eq!(
        a.insert_observations(&[obs(100, "t1", 1), obs(100, "t1", 2)]),
        2
    );
    assert_eq!(a.observation_count(), 2);
    assert_eq!(a.last_feed_ts(), Some(100));
}

#[test]
fn insert_idempotent_sur_la_cle() {
    let mut a = Archive::open_in_memory();
    a.insert_observations(&[obs(100, "t1", 1)]);
    a.insert_observations(&[obs(100, "t1", 1)]);
    assert_eq!(a.observation_count(), 1);
    a.insert_observations(&[obs(130, "t1", 1)]);
    assert_eq!(a.observation_count(), 2);
}

#[test]
fn liens_alerte_course_inseres() {
    let mut a = Archive::open_in_memory();
    let rows = vec![
        AlertTrip {
            feed_ts: 200,
            alert_id: "rs:tec:1".into(),
            trip_id: "gt:tec:t1".into(),
            start_date: Some("20260924".into()),
        },
        AlertTrip {
            feed_ts: 200,
            alert_id: "rs:tec:1".into(),
            trip_id: "gt:tec:t1".into(),
            start_date: None,
        },
    ];
    a.insert_alert_trips(&rows);
    assert_eq!(a.alert_trip_count(), 1);
    a.insert_alert_trips(&[AlertTrip {
        feed_ts: 230,
        alert_id: "rs:tec:1".into(),
        trip_id: "gt:tec:t1".into(),
        start_date: None,
    }]);
    assert_eq!(a.alert_trip_count(), 2);
}

#[test]
fn alertes_inserees() {
    let mut a = Archive::open_in_memory();
    let al = AlertRecord {
        feed_ts: 200,
        captured_at: 205,
        alert_id: "rs:tec:1".into(),
        agency_id: Some("tec".into()),
        effect: Some(1),
        severity: Some(3),
        cause: Some(2),
        route_ids: "gr:tec:L1,gr:tec:L2".into(),
        stop_ids: "".into(),
        header_fr: Some("Annulations".into()),
        description_fr: Some("Ligne 1".into()),
        active_from: Some(1),
        active_to: Some(2),
    };
    assert_eq!(a.insert_alerts(&[al.clone(), al]), 2);
    assert_eq!(a.alert_count(), 1);
}

#[test]
fn the_last_row_of_a_key_is_kept_and_the_others_stay() {
    let mut first = obs(100, "t1", 1);
    first.delay_s = Some(10);
    let mut second = obs(100, "t1", 1);
    second.delay_s = Some(20);
    let a = Archive::open(&[first, obs(100, "t2", 1), second.clone()], &[], &[]);
    assert_eq!(a.observation_count(), 2);
    assert_eq!(a.observations[0], obs(100, "t2", 1));
    assert_eq!(a.observations[1], second);
}

#[test]
fn an_empty_archive_has_seen_no_feed() {
    let a = Archive::open_in_memory();
    assert_eq!(a.last_feed_ts(), None);
    assert_eq!(a.newest_observation(), None);
    assert_eq!(a.newest_alert(), None);
    assert_eq!(a.alert_count(), 0);
}

#[test]
fn the_newest_feed_is_sought_in_all_tables() {
    let mut a = Archive::open_in_memory();
    a.insert_observations(&[obs(100, "t1", 1), obs(90, "t1", 1)]);
    assert_eq!(a.newest_observation(), Some(100));
    a.insert_alert_trips(&[link(300, "t1")]);
    assert_eq!(a.last_feed_ts(), Some(300));
    assert_eq!(a.newest_alert(), None);
}
