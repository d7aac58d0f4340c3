use serde_json::Value;
use transitpulse::archive::Archive;
use transitpulse::realtime::{
    alerts_from, count_cycle, day_string, instants_fit, observations_from, poll_once, run, Alert,
    AlertEntity, Feed, Header, InformedEntity, LiveEvent, PollOutcome, RawArchive, RtConfig,
    RtState, StopTimeEvent, StopTimeUpdate, TimeRange, TranslatedString, Translation,
    TripDescriptor, TripUpdate, TripUpdateEntity, DEFAULT_ALERTS_URL, DEFAULT_TRIP_UPDATES_URL,
    EFFECT_DETOUR, NO_DATA, SKIPPED,
};

const TRIP_UPDATE_FIXTURE: &str = r#"{
  "header": {"gtfsRealtimeVersion": "1.0", "timestamp": 1790190210},
  "entity": [
    {"id": "rt:tec:1", "tripUpdate": {
      "trip": {"tripId": "gt:tec:1", "routeId": "gr:tec:L1"},
      "stopTimeUpdate": [
        {"stopSequence": 10, "stopId": "gs:tec:A",
         "departure": {"time": 1790184359, "delay": -60}, "scheduleRelationship": 0},
        {"stopSequence": 11, "stopId": "gs:tec:B", "scheduleRelationship": 1},
        {"stopSequence": 9, "stopId": "gs:tec:C", "scheduleRelationship": 2}
      ]
    }}
  ]
}"#;

const ALERT_FIXTURE: &str = r#"{
  "header": {"gtfsRealtimeVersion": "1.0", "timestamp": 1790190206},
  "entity": [
    {"id": "rs:tec:1", "alert": {
      "activePeriod": [{"start": 1788732060, "end": 7258114800}],
      "informedEntity": [{"agencyId": "tec", "routeId": "gr:tec:H1078-23109", "stopId": "gs:tec:X"}],
      "cause": 10, "effect": 4, "severityLevel": 1,
      "headerText": {"translation": [{"language": "fr", "text": "Travaux"}]},
      "descriptionText": {"translation": [{"language": "fr", "text": "Ligne déviée"}]}
    }}
  ]
}"#;

fn text(v: &Value, key: &str) -> Option<String> {
    v[key].as_str().map(|s| s.to_string())
}

fn items(v: &Value, key: &str) -> Vec<Value> {
    v[key].as_array().cloned().unwrap_or_default()
}

fn event(v: &Value) -> Option<StopTimeEvent> {
    v.as_object().map(|_| StopTimeEvent {
        delay: v["delay"].as_i64(),
        time: v["time"].as_i64(),
    })
}

fn header(v: &Value) -> Header {
    Header {
        timestamp: v["header"]["timestamp"].as_i64().unwrap(),
        version: text(&v["header"], "gtfsRealtimeVersion"),
    }
}

fn trip_updates(json: &str) -> Feed<TripUpdateEntity> {
    let v: Value = serde_json::from_str(json).unwrap();
    let entity = items(&v, "entity")
        .iter()
        .map(|e| TripUpdateEntity {
            id: text(e, "id"),
            trip_update: e["tripUpdate"].as_object().map(|_| TripUpdate {
                trip: e["tripUpdate"]["trip"].as_object().map(|_| TripDescriptor {
                    trip_id: text(&e["tripUpdate"]["trip"], "tripId"),
                    route_id: text(&e["tripUpdate"]["trip"], "routeId"),
                }),
                stop_time_update: items(&e["tripUpdate"], "stopTimeUpdate")
                    .iter()
                    .map(|u| StopTimeUpdate {
                        stop_sequence: u["stopSequence"].as_i64(),
                        stop_id: text(u, "stopId"),
                        arrival: event(&u["arrival"]),
                        departure: event(&u["departure"]),
                        schedule_relationship: u["scheduleRelationship"].as_i64(),
                    })
                    .collect(),
            }),
        })
        .collect();
    Feed {
        header: header(&v),
        entity,
    }
}

fn translated(v: &Value) -> Option<TranslatedString> {
    v.as_object().map(|_| TranslatedString {
        translation: items(v, "translation")
            .iter()
            .map(|t| Translation {
                language: text(t, "language"),
                text: text(t, "text"),
            })
            .collect(),
    })
}

fn alert_feed(json: &str) -> Feed<AlertEntity> {
    let v: Value = serde_json::from_str(json).unwrap();
    let entity = items(&v, "entity")
        .iter()
        .map(|e| AlertEntity {
            id: text(e, "id"),
            alert: e["alert"].as_object().map(|_| Alert {
                active_period: items(&e["alert"], "activePeriod")
                    .iter()
                    .map(|p| TimeRange {
                        start: p["start"].as_i64(),
                        end: p["end"].as_i64(),
                    })
                    .collect(),
                informed_entity: items(&e["alert"], "informedEntity")
                    .iter()
                    .map(|i| InformedEntity {
                        agency_id: text(i, "agencyId"),
                        route_id: text(i, "routeId"),
                        stop_id: text(i, "stopId"),
                    })
                    .collect(),
                cause: e["alert"]["cause"].as_i64(),
                effect: e["alert"]["effect"].as_i64(),
                severity: e["alert"]["severityLevel"].as_i64(),
                header_text: translated(&e["alert"]["headerText"]),
                description_text: translated(&e["alert"]["descriptionText"]),
            }),
        })
        .collect();
    Feed {
        header: header(&v),
        entity,
    }
}

#[test]
fn parse_trip_update_et_filtre() {
    let feed = trip_updates(TRIP_UPDATE_FIXTURE);
    assert!(instants_fit(&feed.entity));
    let obs = observations_from(feed.header.timestamp, 42, &feed.entity);
    assert_eq!(obs.len(), 2);

    let a = obs.iter().find(|o| o.stop_id == "gs:tec:A").unwrap();
    assert_eq!(a.trip_id, "gt:tec:1");
    assert_eq!(a.route_id.as_deref(), Some("gr:tec:L1"));
    assert_eq!(a.predicted_ms, Some(1_790_184_359_000));
    assert_eq!(a.delay_s, Some(-60));
    assert_eq!(a.scheduled_ms, Some(1_790_184_419_000));
    assert_eq!(a.captured_at, 42);

    let b = obs.iter().find(|o| o.stop_id == "gs:tec:B").unwrap();
    assert_eq!(b.schedule_relationship, SKIPPED);
    assert_eq!(b.predicted_ms, None);
}

#[test]
fn parse_alert() {
    let feed = alert_feed(ALERT_FIXTURE);
    let alerts = alerts_from(feed.header.timestamp, 42, &feed.entity);
    assert_eq!(alerts.len(), 1);
    let a = &alerts[0];
    assert_eq!(a.alert_id, "rs:tec:1");
    assert_eq!(a.agency_id.as_deref(), Some("tec"));
    assert_eq!(a.effect, Some(EFFECT_DETOUR));
    assert_eq!(a.route_ids, "gr:tec:H1078-23109");
    assert_eq!(a.stop_ids, "gs:tec:X");
    assert_eq!(a.header_fr.as_deref(), Some("Travaux"));
    assert_eq!(a.description_fr.as_deref(), Some("Ligne déviée"));
    assert_eq!(a.active_from, Some(1_788_732_060));
}

#[test]
fn archive_brute_append_et_lit_gzip() {
    let raw = RawArchive::new("tp-raw");
    let first = raw.append("trip-update", 1_790_191_057, r#"{"a":1}"#);
    let second = raw.append("trip-update", 1_790_191_057, r#"{"a":2}"#);
    let alert = raw.append("alert", 1_790_191_057, r#"{"b":1}"#);

    assert_eq!(first.day, day_string(1_790_191_057));
    assert_eq!(first.file, "trip-update.jsonl.gz");
    assert_eq!(second.day, first.day);
    assert_eq!(second.file, first.file);
    let mut file = first.bytes.clone();
    file.extend_from_slice(&second.bytes);
    let text = String::from_utf8(RawArchive::read_back(&file).unwrap()).unwrap();
    let lines: Vec<&str> = text.lines().collect();
    assert_eq!(lines, vec![r#"{"a":1}"#, r#"{"a":2}"#]);
    assert_eq!(alert.file, "alert.jsonl.gz");
    assert_eq!(alert.day, day_string(1_790_191_057));
}

#[test]
fn purge_respecte_la_retention() {
    let raw = RawArchive::new("tp-prune").with_retention(30);
    let old = 1_790_191_057;
    let recent = old + 40 * 86_400;
    let days = vec![day_string(old), day_string(recent)];
    let removed = raw.prune(recent, &days);
    assert_eq!(removed.len(), 1);
    assert_eq!(removed, vec![day_string(old)]);
}

#[test]
fn purge_desactivee_avec_retention_zero() {
    let raw = RawArchive::new("tp-prune0").with_retention(0);
    let days = vec![day_string(1_790_191_057)];
    assert_eq!(raw.prune(1_790_191_057 + 999 * 86_400, &days).len(), 0);
}

#[test]
fn fraicheur() {
    let mut s = RtState::default();
    assert!(s.is_stale(1_000, 120));
    s.last_success = Some(950);
    assert_eq!(s.feed_age_secs(1_000), Some(50));
    assert!(!s.is_stale(1_000, 120));
    assert!(s.is_stale(1_200, 120));
}

#[test]
fn a_folder_is_named_by_its_day() {
    assert_eq!(day_string(1_790_191_057), "2026-09-23");
    assert_eq!(day_string(0), "1970-01-01");
    assert_eq!(day_string(-1), "1969-12-31");
    assert_eq!(day_string(951_782_400), "2000-02-29");
    assert_eq!(day_string(i64::MAX), "unknown");
    assert_eq!(day_string(i64::MIN), "unknown");
}

#[test]
fn only_day_folders_are_purged() {
    let raw = RawArchive::new("r").with_retention(1);
    let names: Vec<String> = ["2026-09-21", "2026-09-22", "2026-09-23", "notes", "2020-01-0"]
        .iter()
        .map(|n| n.to_string())
        .collect();
    assert_eq!(raw.prune(1_790_191_057, &names), vec!["2026-09-21"]);
    let forever = RawArchive::new("r").with_retention(u64::MAX);
    assert!(forever.prune(1_790_191_057, &names).is_empty());
}

#[test]
fn payloads_are_kept_for_ninety_days_by_default() {
    let raw = RawArchive::new("data/raw/rt");
    assert_eq!(raw.root, "data/raw/rt");
    assert_eq!(raw.retention_days, 90);
    assert_eq!(raw.clone().retention_days, 90);
}

#[test]
fn a_raw_file_is_packed_and_a_damaged_one_is_told() {
    let body = "abc".repeat(1000);
    let appended = RawArchive::new("r").append("alert", 0, &body);
    assert!(appended.bytes.len() < body.len());
    let back = RawArchive::read_back(&appended.bytes).unwrap();
    assert_eq!(back, format!("{body}\n").into_bytes());
    assert!(RawArchive::read_back(&appended.bytes[..20]).is_none());
    assert!(RawArchive::read_back(b"plain text").is_none());
}

fn update(seq: Option<i64>, stop: Option<&str>, relationship: Option<i64>) -> StopTimeUpdate {
    StopTimeUpdate {
        stop_sequence: seq,
        stop_id: stop.map(|s| s.to_string()),
        arrival: None,
        departure: None,
        schedule_relationship: relationship,
    }
}

fn entity(updates: Vec<StopTimeUpdate>) -> TripUpdateEntity {
    TripUpdateEntity {
        id: None,
        trip_update: Some(TripUpdate {
            trip: Some(TripDescriptor {
                trip_id: Some("t".into()),
                route_id: None,
            }),
            stop_time_update: updates,
        }),
    }
}

#[test]
fn an_arrival_stands_in_for_a_missing_departure() {
    let mut u = update(Some(1), Some("A"), None);
    u.arrival = Some(StopTimeEvent {
        delay: None,
        time: Some(7),
    });
    let obs = observations_from(1, 2, &[entity(vec![u])]);
    assert_eq!(obs.len(), 1);
    assert_eq!(obs[0].predicted_ms, Some(7_000));
    assert_eq!(obs[0].scheduled_ms, None);
    assert_eq!(obs[0].schedule_relationship, 0);
}

#[test]
fn updates_that_tell_nothing_are_left_out() {
    let mut no_time = update(Some(1), Some("A"), Some(0));
    no_time.departure = Some(StopTimeEvent {
        delay: Some(5),
        time: None,
    });
    let entities = vec![
        entity(vec![
            no_time,
            update(None, Some("A"), Some(SKIPPED)),
            update(Some(1), None, Some(SKIPPED)),
            update(Some(1), Some("A"), Some(NO_DATA)),
        ]),
        TripUpdateEntity {
            id: None,
            trip_update: None,
        },
        TripUpdateEntity {
            id: None,
            trip_update: Some(TripUpdate {
                trip: None,
                stop_time_update: vec![update(Some(1), Some("A"), Some(SKIPPED))],
            }),
        },
    ];
    assert!(observations_from(1, 2, &entities).is_empty());
}

#[test]
fn an_update_without_data_is_left_out_though_it_has_a_time() {
    let at = |relationship: i64, time: i64| {
        let mut u = update(Some(1), Some("S"), Some(relationship));
        u.departure = Some(StopTimeEvent {
            delay: Some(0),
            time: Some(time),
        });
        [entity(vec![u])]
    };
    assert!(observations_from(1, 2, &at(NO_DATA, 100)).is_empty());
    assert_eq!(observations_from(1, 2, &at(0, 100)).len(), 1);
    assert_eq!(observations_from(1, 2, &at(SKIPPED, 100)).len(), 1);
    // Its instants do not count either.
    assert!(instants_fit(&at(NO_DATA, i64::MAX)));
    assert!(!instants_fit(&at(0, i64::MAX)));
}

#[test]
fn entities_are_observed_one_by_one() {
    let first = || entity(vec![update(Some(1), Some("A"), Some(SKIPPED))]);
    let second = || {
        entity(vec![
            update(Some(2), Some("B"), Some(NO_DATA)),
            update(Some(1), Some("A"), Some(SKIPPED)),
            update(Some(3), Some("C"), Some(SKIPPED)),
        ])
    };
    let places = |entities: &[TripUpdateEntity]| -> Vec<i64> {
        observations_from(1, 2, entities)
            .iter()
            .map(|o| o.stop_sequence)
            .collect()
    };
    assert_eq!(places(&[first()]), [1]);
    assert_eq!(places(&[second()]), [1, 3]);
    assert_eq!(places(&[first(), second()]), [1, 1, 3]);
    assert_eq!(places(&[second(), first()]), [1, 3, 1]);
    assert!(places(&[]).is_empty());
}

#[test]
fn alerts_are_kept_one_by_one() {
    let first = || alert_feed(ALERT_FIXTURE).entity;
    let unnamed = || {
        let mut list = first();
        list.iter_mut().for_each(|e| e.id = None);
        list
    };
    let names = |entities: &[AlertEntity]| -> Vec<String> {
        alerts_from(1, 2, entities)
            .into_iter()
            .map(|a| a.alert_id)
            .collect()
    };
    let mut all = first();
    all.extend(unnamed());
    all.extend(first());
    let mut apart = names(&first());
    apart.extend(names(&unnamed()));
    apart.extend(names(&first()));
    assert_eq!(names(&all), apart);
    assert_eq!(apart.len(), 2);
    assert!(names(&[]).is_empty());
}

#[test]
fn a_turn_takes_note_of_the_cycle() {
    let mut s = RtState::default();
    let turn = run(
        &mut s,
        118,
        100,
        Ok(PollOutcome {
            feed_ts: 90,
            observations: 3,
            alerts: 1,
        }),
    );
    assert_eq!(turn.cycles, 119);
    assert!(!turn.purge);
    assert_eq!(
        turn.event,
        Some(LiveEvent {
            feed_ts: 90,
            observations: 3,
            alerts: 1,
        })
    );
    assert_eq!(s.last_success, Some(100));
    assert_eq!(s.last_feed_ts, Some(90));
    assert_eq!((s.observations_last, s.alerts_last), (3, 1));
    assert_eq!(s.last_error, None);

    let turn = run(&mut s, turn.cycles, 130, Err("timeout".into()));
    assert_eq!(turn.cycles, 120);
    assert!(turn.purge);
    assert_eq!(turn.event, None);
    assert_eq!(s.last_error.as_deref(), Some("timeout"));
    assert_eq!(s.last_success, Some(100));
    assert_eq!(s.last_feed_ts, Some(90));
    assert_eq!((s.observations_last, s.alerts_last), (3, 1));
}

#[test]
fn instants_beyond_the_milliseconds_are_told() {
    let mut u = update(Some(1), Some("A"), None);
    u.departure = Some(StopTimeEvent {
        delay: None,
        time: Some(i64::MAX / 1000 + 1),
    });
    assert!(!instants_fit(&[entity(vec![u])]));
    let mut v = update(Some(1), Some("A"), None);
    v.departure = Some(StopTimeEvent {
        delay: Some(i64::MIN / 1000),
        time: Some(1),
    });
    assert!(!instants_fit(&[entity(vec![v])]));
    assert!(instants_fit(&[]));
}

#[test]
fn an_alert_without_a_name_is_left_out() {
    let mut feed = alert_feed(ALERT_FIXTURE);
    feed.entity[0].id = None;
    assert!(alerts_from(1, 2, &feed.entity).is_empty());
}

#[test]
fn an_alert_joins_what_it_names() {
    let mut feed = alert_feed(ALERT_FIXTURE);
    let alert = feed.entity[0].alert.as_mut().unwrap();
    alert.active_period.clear();
    alert.informed_entity = vec![
        InformedEntity {
            agency_id: None,
            route_id: Some("r1".into()),
            stop_id: None,
        },
        InformedEntity {
            agency_id: Some("a2".into()),
            route_id: None,
            stop_id: Some("s2".into()),
        },
        InformedEntity {
            agency_id: Some("a3".into()),
            route_id: Some("r3".into()),
            stop_id: Some("s3".into()),
        },
    ];
    let got = alerts_from(1, 2, &feed.entity);
    assert_eq!(got[0].agency_id.as_deref(), Some("a2"));
    assert_eq!(got[0].route_ids, "r1,r3");
    assert_eq!(got[0].stop_ids, "s2,s3");
    assert_eq!(got[0].active_from, None);
    assert_eq!(got[0].active_to, None);
}

fn translation(language: Option<&str>, text: &str) -> Translation {
    Translation {
        language: language.map(|l| l.to_string()),
        text: Some(text.into()),
    }
}

#[test]
fn french_comes_before_other_languages() {
    let both = TranslatedString {
        translation: vec![translation(Some("nl"), "Werken"), translation(Some("fr"), "Travaux")],
    };
    assert_eq!(both.fr().as_deref(), Some("Travaux"));
    let other = TranslatedString {
        translation: vec![translation(None, "Works"), translation(Some("nl"), "Werken")],
    };
    assert_eq!(other.fr().as_deref(), Some("Works"));
    assert_eq!(
        TranslatedString {
            translation: vec![]
        }
        .fr(),
        None
    );
}

#[test]
fn a_cycle_writes_lines_and_rows() {
    let raw = RawArchive::new("r");
    let plan = poll_once(
        &raw,
        42,
        &trip_updates(TRIP_UPDATE_FIXTURE),
        &alert_feed(ALERT_FIXTURE),
        "tu",
        "al",
    );
    assert_eq!(
        plan.outcome,
        PollOutcome {
            feed_ts: 1_790_190_210,
            observations: 2,
            alerts: 1,
        }
    );
    assert_eq!(plan.raw_trip_updates.file, "trip-update.jsonl.gz");
    assert_eq!(plan.raw_alerts.file, "alert.jsonl.gz");
    assert_eq!(plan.raw_alerts.day, "2026-09-23");
    assert_eq!(
        RawArchive::read_back(&plan.raw_alerts.bytes).unwrap(),
        b"al\n"
    );
    let mut archive = Archive::open_in_memory();
    plan.store(&mut archive);
    plan.store(&mut archive);
    assert_eq!(archive.observation_count(), 2);
    assert_eq!(archive.alert_count(), 1);
    assert_eq!(archive.newest_alert(), Some(1_790_190_206));
    assert_eq!(archive.last_feed_ts(), Some(1_790_190_210));
}

#[test]
fn a_failed_cycle_leaves_the_data_as_old_as_they_are() {
    let mut s = RtState::default();
    let event = s.finish_cycle(
        100,
        Ok(PollOutcome {
            feed_ts: 90,
            observations: 3,
            alerts: 1,
        }),
    );
    assert_eq!(
        event,
        Some(LiveEvent {
            feed_ts: 90,
            observations: 3,
            alerts: 1,
        })
    );
    assert_eq!(s.finish_cycle(130, Err("timeout".into())), None);
    assert_eq!(s.last_success, Some(100));
    assert_eq!(s.last_feed_ts, Some(90));
    assert_eq!(s.observations_last, 3);
    assert_eq!(s.last_error.as_deref(), Some("timeout"));
    s.finish_cycle(
        160,
        Ok(PollOutcome {
            feed_ts: 150,
            observations: 0,
            alerts: 0,
        }),
    );
    assert_eq!(s.last_error, None);
    assert_eq!(s.feed_age_secs(170), Some(10));
}

#[test]
fn the_raw_archive_is_purged_once_an_hour() {
    assert_eq!(count_cycle(0), (1, false));
    assert_eq!(count_cycle(118), (119, false));
    assert_eq!(count_cycle(119), (120, true));
    assert_eq!(count_cycle(239), (240, true));
}

#[test]
fn the_feeds_are_asked_twice_a_minute() {
    let cfg = RtConfig::default();
    assert_eq!(cfg.trip_updates_url, DEFAULT_TRIP_UPDATES_URL);
    assert_eq!(cfg.alerts_url, DEFAULT_ALERTS_URL);
    assert_eq!(cfg.poll_interval, 30);
}
