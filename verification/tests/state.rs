use transitpulse::domain::{Degrees, ServiceStatus, Stop};
use transitpulse::state::{fold, severity_rank, unaccent, worst_status, Repo};

const NOW: i64 = 1_790_191_057_000;

fn haversine_m(a_lat: f64, a_lon: f64, b_lat: f64, b_lon: f64) -> f64 {
    let dlat = (b_lat - a_lat).to_radians();
    let dlon = (b_lon - a_lon).to_radians();
    let h = (dlat / 2.0).sin().powi(2)
        + a_lat.to_radians().cos() * b_lat.to_radians().cos() * (dlon / 2.0).sin().powi(2);
    2.0 * 6_371_000.0 * h.sqrt().asin()
}

fn degrees(d: Degrees) -> f64 {
    f64::from_bits(d.bits)
}

fn metres(stops: &[Stop], lat: f64, lon: f64) -> Vec<u64> {
    stops
        .iter()
        .map(|s| haversine_m(lat, lon, degrees(s.lat), degrees(s.lon)).to_bits())
        .collect()
}

#[test]
fn recherche_par_nom() {
    let repo = Repo::mock(NOW);
    assert_eq!(repo.search("opéra").len(), 1);
    assert_eq!(repo.search("liege").len(), 3);
    assert!(repo.search("").is_empty());
    assert!(repo.search("paris").is_empty());
}

#[test]
fn statut_du_jeu_fictif_couvre_les_cas() {
    let repo = Repo::mock(NOW);
    let opera = repo.status_for_stop("tec:liege:opera").unwrap();
    assert!(opera
        .lines
        .iter()
        .any(|l| l.status == ServiceStatus::Perturbed));
    assert!(opera
        .lines
        .iter()
        .any(|l| l.status == ServiceStatus::Reduced));
    assert!(opera
        .lines
        .iter()
        .any(|l| l.status == ServiceStatus::Normal));

    let republique = repo.status_for_stop("tec:liege:republique").unwrap();
    assert!(republique
        .lines
        .iter()
        .any(|l| l.status == ServiceStatus::Stopped));
}

#[test]
fn arret_le_plus_proche() {
    let repo = Repo::mock(NOW);
    let near = repo
        .nearest(&metres(&repo.stops, 50.6430, 5.5730), 500.0f64.to_bits())
        .unwrap();
    assert_eq!(near.stop_id, "tec:liege:opera");
    assert!(repo
        .nearest(&metres(&repo.stops, 48.85, 2.35), 500.0f64.to_bits())
        .is_none());
}

#[test]
fn the_mock_shows_each_status() {
    let repo = Repo::mock(NOW);
    let mut seen = Vec::new();
    for (id, _) in &repo.statuses {
        for line in repo.status_for_stop(id).unwrap().lines {
            seen.push(line.status);
        }
    }
    for status in [
        ServiceStatus::Normal,
        ServiceStatus::Perturbed,
        ServiceStatus::Reduced,
        ServiceStatus::Stopped,
        ServiceStatus::Unknown,
    ] {
        assert!(seen.contains(&status));
    }
}

#[test]
fn the_mock_stands_where_the_stops_are() {
    let repo = Repo::mock(NOW);
    let opera = &repo.stops[0];
    assert_eq!(degrees(opera.lat), 50.6431);
    assert_eq!(degrees(opera.lon), 5.5734);
    assert_eq!(degrees(repo.stops[1].lat), 50.6410);
    assert_eq!(degrees(repo.stops[1].lon), 5.5720);
    assert_eq!(degrees(repo.stops[2].lat), 50.6232);
    assert_eq!(degrees(repo.stops[2].lon), 5.5664);
    let known = repo.status_for_stop("tec:liege:opera").unwrap();
    assert_eq!(known.last_updated, Some(NOW - 30_000));
    assert_eq!(known.feed_age_secs, Some(30));
    assert_eq!(
        known.advice,
        "Service fortement réduit : prévoyez un plan B."
    );
    assert!(repo.status_for_stop("tec:liege:nowhere").is_none());
}

#[test]
fn names_are_compared_without_case_and_accents() {
    assert_eq!(fold("  Liège — OPÉRA "), "liege — opera");
    assert_eq!(fold("ÇÀÎÔÜŸ"), "caiouy");
    assert_eq!(unaccent("éèêë àâäáã ñ"), "eeee aaaaa ñ");
}

#[test]
fn the_gravest_line_decides() {
    let repo = Repo::mock(NOW);
    let republique = repo.status_for_stop("tec:liege:republique").unwrap();
    assert_eq!(worst_status(&republique.lines), ServiceStatus::Stopped);
    assert_eq!(worst_status(&[]), ServiceStatus::Unknown);
    assert!(severity_rank(ServiceStatus::Stopped) < severity_rank(ServiceStatus::Reduced));
    assert!(severity_rank(ServiceStatus::Unknown) < severity_rank(ServiceStatus::Normal));
}

#[test]
fn of_equal_distances_the_first_is_nearest() {
    let repo = Repo::mock(NOW);
    assert_eq!(
        repo.nearest(&[7, 5, 5], 6).unwrap().stop_id,
        "tec:liege:republique"
    );
    assert!(repo.nearest(&[7, 7, 7], 6).is_none());
}

#[test]
fn no_stop_has_two_statuses() {
    let repo = Repo::mock(NOW);
    for (i, (key, status)) in repo.statuses.iter().enumerate() {
        assert!(repo.statuses[i + 1..].iter().all(|(other, _)| other != key));
        let found = repo.status_for_stop(key).unwrap();
        assert_eq!(found.stop.stop_id, status.stop.stop_id);
        assert_eq!(found.lines.len(), status.lines.len());
    }
}

#[test]
fn folding_twice_is_folding_once() {
    assert_eq!(fold("  Liège — OPÉRA "), "liege — opera");
    for s in ["  Liège — OPÉRA ", "", " \t ", "ÀÂÄÁÃ ÉÈÊË ÎÏÍ ÔÖÓÕ ÛÜÙÚ Ç Ÿ", "Gare 12", "İΣ"] {
        let once = fold(s);
        assert_eq!(fold(&once), once);
        assert_eq!(once.trim(), once);
        assert!(!once.chars().any(|c| c.is_uppercase()));
    }
    assert_eq!(
        fold("ÀÂÄÁÃ ÉÈÊË ÎÏÍ ÔÖÓÕ ÛÜÙÚ Ç Ÿ"),
        "aaaaa eeee iii oooo uuuu c y"
    );
}

#[test]
fn a_blank_question_finds_nothing() {
    let repo = Repo::mock(NOW);
    assert!(repo.search(" \t\u{a0}").is_empty());
}
