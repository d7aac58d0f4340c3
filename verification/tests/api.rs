use transitpulse::api::{
    compute_status, freshness, live_message, looks_like_address, mock_status, nearby,
    nearby_from_stops, network_view, resolve_stop_id, search, search_around, status_reply,
    ApiError, Geocoded, LiveAction, LiveInput, LiveMessage, LiveSession, Position, SearchStep,
    ADDRESS_RADIUS, NEARBY_RADIUS_M, STATUS_RADIUS_M,
};
use transitpulse::archive::Archive;
use transitpulse::calendar::LocalDateTime;
use transitpulse::domain::Degrees;
use transitpulse::gtfs::GtfsError;
use transitpulse::loader::{StopRow, StopTimeRow};
use transitpulse::network::{CommuneStatus, NetworkThresholds};
use transitpulse::realtime::RtState;
use transitpulse::state::Repo;
use transitpulse::status::StatusService;
use transitpulse::timetable::GtfsRepo;

const NOW: i64 = 1_790_191_057_000;

fn degrees(d: f64) -> Degrees {
    Degrees { bits: d.to_bits() }
}

fn gtfs() -> GtfsRepo {
    let mut repo = GtfsRepo::open_in_memory();
    for (id, name) in [("a", "LIEGE Opéra"), ("b", "HUY Gare 12")] {
        repo.stops.push(StopRow {
            stop_id: id.into(),
            stop_name: name.into(),
            stop_desc: None,
            lat: degrees(50.0),
            lon: degrees(5.0),
            wheelchair: None,
            zone_id: None,
            parent_station: None,
        });
    }
    repo.stop_times.push(StopTimeRow {
        trip_id: "t".into(),
        stop_sequence: 1,
        stop_id: "a".into(),
        arrival_secs: None,
        departure_secs: Some(1),
    });
    repo
}

fn bits(metres: &[f64]) -> Vec<u64> {
    metres.iter().map(|m| m.to_bits()).collect()
}

fn place() -> Geocoded {
    Geocoded {
        lat: degrees(50.0),
        lon: degrees(5.0),
        label: "Rue Haute 12".into(),
    }
}

#[test]
fn detection_adresse() {
    assert!(looks_like_address("Rue de la Station 12"));
    assert!(looks_like_address("Place Centrale 1"));
    assert!(!looks_like_address("Guillemins"));
    assert!(!looks_like_address("Opéra"));
}

#[test]
fn without_a_timetable_the_mock_is_searched() {
    let repo = Repo::mock(NOW);
    let SearchStep::Answer(a) = search(None, &repo, "liege") else {
        panic!("an answer was due")
    };
    assert_eq!(a.stops.len(), 3);
    assert!(a.stops[0].served);
    assert!(a.origin.is_none());
    assert!(a.note.is_none());
}

#[test]
fn a_name_is_answered_and_an_address_is_looked_up() {
    let repo = Repo::mock(NOW);
    let g = gtfs();
    let SearchStep::Answer(a) = search(Some(&g), &repo, "opéra") else {
        panic!("an answer was due")
    };
    assert_eq!(a.stops.len(), 1);
    assert_eq!(a.stops[0].stop.stop_id, "a");
    assert!(a.stops[0].served);
    let SearchStep::Geocode(by_name) = search(Some(&g), &repo, "gare 12") else {
        panic!("an address was due")
    };
    assert_eq!(by_name.len(), 1);
    let SearchStep::Geocode(by_name) = search(Some(&g), &repo, "Rue Haute") else {
        panic!("an address was due")
    };
    assert!(by_name.is_empty());
}

#[test]
fn an_address_is_answered_by_the_stops_around_it() {
    let g = gtfs();
    assert_eq!(ADDRESS_RADIUS, 1200.0f64.to_bits());
    let near = search_around(&g, &[], Some(place()), &bits(&[900.0, 1300.0]));
    assert_eq!(near.stops.len(), 1);
    assert_eq!(f64::from_bits(near.stops[0].metres), 900.0);
    assert_eq!(near.origin.unwrap().label, "Rue Haute 12");
    assert_eq!(near.note, None);
    let far = search_around(&g, &[], Some(place()), &bits(&[9000.0, 1300.0]));
    assert!(far.stops.is_empty());
    assert_eq!(
        far.note.as_deref(),
        Some("Aucun arrêt dans un rayon de 1200 m autour de « Rue Haute 12 »")
    );
}

#[test]
fn an_address_that_is_not_found_falls_back_on_names() {
    let g = gtfs();
    let none = search_around(&g, &[], None, &[]);
    assert_eq!(none.note.as_deref(), Some("Adresse introuvable"));
    let by_name = vec![g.stop("b").unwrap()];
    let some = search_around(&g, &by_name, None, &[]);
    assert_eq!(some.stops.len(), 1);
    assert!(!some.stops[0].served);
    assert_eq!(some.note, None);
    assert_eq!(nearby_from_stops(&g, &by_name)[0].metres, 0);
}

#[test]
fn nearby_needs_a_timetable() {
    let g = gtfs();
    let radius = (NEARBY_RADIUS_M as f64).to_bits();
    assert_eq!(
        nearby(Some(&g), &bits(&[10.0, 20.0]), radius).unwrap().len(),
        2
    );
    let err = nearby(None, &[], radius).unwrap_err();
    assert_eq!(err.status_code(), 500);
    assert_eq!(err.message(), "GTFS non chargé");
}

#[test]
fn nothing_is_near_within_a_radius_that_is_none() {
    let g = gtfs();
    let repo = Repo::mock(NOW);
    let near = bits(&[0.0, 5000.0]);
    let found = |radius: f64| nearby(Some(&g), &near, radius.to_bits()).unwrap().len();
    for none in [-1.0, f64::NEG_INFINITY, f64::NAN, -f64::NAN] {
        assert_eq!(found(none), 0);
        assert!(g.nearest_stop(&near, none.to_bits()).is_none());
        assert!(repo.nearest(&bits(&[0.0, 1.0, 2.0]), none.to_bits()).is_none());
    }
    assert_eq!(found(0.0), 1);
    assert_eq!(found(-0.0), 1);
    assert_eq!(found(5000.0), 2);
    assert_eq!(found(f64::INFINITY), 2);
    // A distance that is no number is within no radius.
    let lost = bits(&[f64::NAN, -f64::NAN]);
    assert!(nearby(Some(&g), &lost, f64::INFINITY.to_bits()).unwrap().is_empty());
    let at = repo.nearest(&bits(&[3.0, 1.0, 2.0]), 2.5f64.to_bits()).unwrap();
    assert_eq!(at.stop_id, repo.stops[1].stop_id);
}

fn position(gtfs_metres: &[f64], repo_metres: &[f64]) -> Position {
    Position {
        gtfs_metres: bits(gtfs_metres),
        repo_metres: bits(repo_metres),
        radius: (STATUS_RADIUS_M as f64).to_bits(),
    }
}

#[test]
fn a_stop_is_resolved_by_name_then_by_position() {
    let g = gtfs();
    let repo = Repo::mock(NOW);
    let far = [9000.0, 9000.0, 9000.0];
    assert_eq!(
        resolve_stop_id(Some(&g), &repo, Some("x".into()), None),
        Ok("x".into())
    );
    assert_eq!(
        resolve_stop_id(Some(&g), &repo, None, Some(position(&[300.0, 200.0], &far))),
        Ok("a".into())
    );
    assert_eq!(
        resolve_stop_id(
            Some(&g),
            &repo,
            None,
            Some(position(&[900.0, 900.0], &[400.0, 300.0, 900.0]))
        ),
        Ok("tec:liege:republique".into())
    );
    assert_eq!(
        resolve_stop_id(None, &repo, None, Some(position(&[], &far))),
        Err(ApiError::NotFound("Aucun arrêt à proximité".into()))
    );
    let err = resolve_stop_id(None, &repo, None, None).unwrap_err();
    assert_eq!(err.status_code(), 400);
    assert_eq!(err.message(), "Fournir `stop` ou `lat` + `lon`");
}

#[test]
fn a_status_is_answered_or_refused() {
    let repo = Repo::mock(NOW);
    let err = status_reply("x", Ok(None)).unwrap_err();
    assert_eq!(err.status_code(), 404);
    assert_eq!(err.message(), "Arrêt inconnu : x");
    let err = status_reply("x", Err(GtfsError::InvalidDate("?".into(), "no".into()))).unwrap_err();
    assert_eq!(err, ApiError::Internal("date invalide ?: no".into()));
    let st = mock_status(&repo, "tec:liege:opera").unwrap();
    assert_eq!(st.lines.len(), 3);
    assert!(status_reply("tec:liege:opera", Ok(Some(st))).is_ok());
    assert!(mock_status(&repo, "x").is_err());
}

#[test]
fn the_real_status_comes_before_the_mock() {
    let repo = Repo::mock(NOW);
    let now = LocalDateTime {
        year: 2026,
        month: 9,
        day: 23,
        hour: 9,
        minute: 55,
        second: 0,
    };
    let svc = StatusService::open(gtfs(), Archive::open_in_memory(), vec![]);
    let st = compute_status(Some(&svc), &repo, "a", now, NOW).unwrap();
    assert_eq!(st.stop.name, "LIEGE Opéra");
    assert_eq!(st.feed_age_secs, None);
    let err = compute_status(Some(&svc), &repo, "tec:liege:opera", now, NOW).unwrap_err();
    assert_eq!(err.message(), "Arrêt inconnu : tec:liege:opera");
    assert!(compute_status(None, &repo, "tec:liege:opera", now, NOW).is_ok());
}

#[test]
fn a_subscriber_follows_one_stop_at_a_time() {
    let mut s = LiveSession::new("a".into());
    assert_eq!(s.step(LiveInput::Cycle), LiveAction::Push);
    assert_eq!(s.step(LiveInput::Text(" a ".into())), LiveAction::Wait);
    assert_eq!(s.step(LiveInput::Text("   ".into())), LiveAction::Wait);
    assert_eq!(s.step(LiveInput::Text(" b\n".into())), LiveAction::Push);
    assert_eq!(s.current, "b");
    assert_eq!(s.step(LiveInput::Other), LiveAction::Wait);
    assert_eq!(s.step(LiveInput::Left), LiveAction::Stop);
    assert_eq!(s.step(LiveInput::NoMoreCycles), LiveAction::Stop);
}

#[test]
fn a_subscriber_is_told_what_concerns_them() {
    let repo = Repo::mock(NOW);
    let ok = live_message("tec:liege:opera", mock_status(&repo, "tec:liege:opera"));
    assert!(matches!(ok, LiveMessage::Status { stop_id, .. } if stop_id == "tec:liege:opera"));
    let unknown = live_message("x", mock_status(&repo, "x"));
    assert!(
        matches!(unknown, LiveMessage::Error { message, .. } if message == "Arrêt inconnu : x")
    );
    let fault = live_message("x", Err(ApiError::Internal("disk".into())));
    assert!(matches!(fault, LiveMessage::Error { message, .. } if message == "Erreur interne"));
}

#[test]
fn the_network_view_shows_the_communes_in_trouble() {
    let th = NetworkThresholds::default();
    let mut communes = vec![
        CommuneStatus::derive("A".into(), 10, 9, th),
        CommuneStatus::derive("B".into(), 100, 1, th),
    ];
    for i in 0..30 {
        communes.push(CommuneStatus::derive(format!("C{i}"), 20, 5, th));
    }
    let view = network_view(&communes);
    assert_eq!(view.critical_communes, 1);
    assert_eq!(view.degraded_communes, 30);
    assert_eq!(view.communes.len(), 20);
    assert_eq!(view.worst.unwrap().commune, "A");
    assert_eq!(view.communes[1].commune, "C0");
    assert!(network_view(&communes[1..2]).worst.is_none());
}

#[test]
fn freshness_tells_the_age_of_the_data() {
    let mut rt = RtState::default();
    assert!(freshness(&rt, 1_000, 120).stale);
    rt.last_success = Some(900);
    rt.last_feed_ts = Some(890);
    rt.observations_last = 7;
    rt.last_error = Some("x".into());
    let f = freshness(&rt, 1_000, 120);
    assert_eq!(f.feed_age_secs, Some(100));
    assert!(!f.stale);
    assert_eq!(f.last_feed_ts, Some(890));
    assert_eq!((f.observations_last, f.alerts_last), (7, 0));
    assert_eq!(f.last_error.as_deref(), Some("x"));
    assert!(freshness(&rt, 1_021, 120).stale);
}
