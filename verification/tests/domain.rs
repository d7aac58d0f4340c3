use transitpulse::domain::{
    advice, evaluate, evidence, Departure, EvidenceKind, ServiceStatus, Thresholds,
};
use transitpulse::ratio::Ratio;

const NOW: i64 = 1_790_191_057_000;

fn dep(mins: i64, delay_secs: i64, cancelled: bool) -> Departure {
    let scheduled = NOW + mins * 60_000;
    let observed = if cancelled {
        None
    } else {
        Some(scheduled + delay_secs * 1000)
    };
    Departure {
        trip_id: format!("t{mins}"),
        headsign: "Test".into(),
        scheduled,
        observed,
        cancelled,
    }
}

#[test]
fn a_lheure_est_normal() {
    let deps = vec![dep(5, 0, false), dep(20, 30, false)];
    let (s, r) = evaluate(&deps, true, None, Thresholds::default());
    assert_eq!(s, ServiceStatus::Normal);
    assert_eq!(r, None);
}

#[test]
fn retard_au_dela_du_seuil_est_perturbe() {
    let deps = vec![dep(5, 300, false)];
    let (s, r) = evaluate(&deps, true, None, Thresholds::default());
    assert_eq!(s, ServiceStatus::Perturbed);
    assert!(r.unwrap().contains("5 min"));
}

#[test]
fn moitie_annulee_est_reduit() {
    let deps = vec![dep(5, 0, true), dep(20, 0, false)];
    let (s, r) = evaluate(&deps, true, None, Thresholds::default());
    assert_eq!(s, ServiceStatus::Reduced);
    assert_eq!(r.unwrap(), "50 % des passages annulés");
}

#[test]
fn tout_annule_est_arrete() {
    let deps = vec![dep(5, 0, true), dep(20, 0, true)];
    let (s, _) = evaluate(&deps, true, None, Thresholds::default());
    assert_eq!(s, ServiceStatus::Stopped);
}

#[test]
fn aucun_passage_est_arrete() {
    let (s, _) = evaluate(&[], true, None, Thresholds::default());
    assert_eq!(s, ServiceStatus::Stopped);
}

#[test]
fn alerte_severe_est_arrete() {
    let deps = vec![dep(5, 0, false)];
    let (s, r) = evaluate(
        &deps,
        true,
        Some("Ligne interrompue"),
        Thresholds::default(),
    );
    assert_eq!(s, ServiceStatus::Stopped);
    assert_eq!(r.unwrap(), "Ligne interrompue");
}

#[test]
fn sans_rt_frais_et_service_prevu_est_inconnu() {
    let deps = vec![dep(5, 0, false)];
    let (s, _) = evaluate(&deps, false, None, Thresholds::default());
    assert_eq!(s, ServiceStatus::Unknown);
}

#[test]
fn sans_rt_frais_et_aucun_service_reste_arrete() {
    let (s, _) = evaluate(&[], false, None, Thresholds::default());
    assert_eq!(s, ServiceStatus::Stopped);
}

#[test]
fn a_hole_in_the_data_hides_even_an_alert() {
    let deps = vec![dep(5, 0, true)];
    let (s, r) = evaluate(&deps, false, Some("Grève"), Thresholds::default());
    assert_eq!(s, ServiceStatus::Unknown);
    assert_eq!(
        r.unwrap(),
        "Données temps réel indisponibles ou trop anciennes"
    );
}

#[test]
fn a_delay_at_the_threshold_perturbs() {
    let (s, r) = evaluate(&[dep(5, 180, false)], true, None, Thresholds::default());
    assert_eq!(s, ServiceStatus::Perturbed);
    assert_eq!(r.unwrap(), "Retard jusqu'à 3 min");
    let (s, _) = evaluate(&[dep(5, 179, false)], true, None, Thresholds::default());
    assert_eq!(s, ServiceStatus::Normal);
}

#[test]
fn shares_are_rounded_to_the_nearest_percent() {
    let deps = vec![dep(1, 0, true), dep(2, 0, true), dep(3, 0, false)];
    let (s, r) = evaluate(&deps, true, None, Thresholds::default());
    assert_eq!(s, ServiceStatus::Reduced);
    assert_eq!(r.unwrap(), "67 % des passages annulés");
}

#[test]
fn a_threshold_can_be_changed() {
    let thresholds = Thresholds {
        late_secs: 60,
        reduced_cancelled_ratio: Ratio { num: 9, den: 10 },
        stale_feed_secs: 10,
    };
    let deps = vec![dep(1, 90, false), dep(2, 0, true)];
    let (s, _) = evaluate(&deps, true, None, thresholds);
    assert_eq!(s, ServiceStatus::Perturbed);
}

#[test]
fn a_delay_is_counted_in_whole_seconds() {
    let mut d = dep(5, 0, false);
    d.observed = Some(d.scheduled + 1_999);
    assert_eq!(d.delay_secs(), Some(1));
    d.observed = Some(d.scheduled - 1_999);
    assert_eq!(d.delay_secs(), Some(-1));
    d.observed = None;
    assert_eq!(d.delay_secs(), None);
}

#[test]
fn each_cancelled_departure_is_evidence() {
    let found = evidence(&[dep(1, 0, true), dep(2, 0, false), dep(3, 0, true)]);
    assert_eq!(found.len(), 2);
    assert_eq!(found[0].kind, EvidenceKind::Cancelled);
    assert_eq!(found[0].trip_id, "t1");
    assert_eq!(found[1].trip_id, "t3");
}

#[test]
fn each_status_has_its_advice() {
    assert_eq!(
        advice(ServiceStatus::Normal),
        "Vous pouvez compter sur ce bus."
    );
    assert_eq!(
        advice(ServiceStatus::Stopped),
        "Service à l'arrêt : cherchez une alternative."
    );
    assert_eq!(
        advice(ServiceStatus::Unknown),
        "Données manquantes : vérifiez un arrêt voisin."
    );
}

#[test]
fn a_share_is_rounded_as_its_double_is() {
    let mut deps: Vec<Departure> = (0..40).map(|i| dep(i, 0, i < 23)).collect();
    let (_, r) = evaluate(&deps, true, None, Thresholds::default());
    assert_eq!(((23.0f64 / 40.0) * 100.0).round(), 57.0);
    assert_eq!(r.unwrap(), "57 % des passages annulés");
    deps.truncate(8);
    for (i, d) in deps.iter_mut().enumerate() {
        d.cancelled = i < 5;
    }
    let (_, r) = evaluate(&deps, true, None, Thresholds::default());
    assert_eq!(((5.0f64 / 8.0) * 100.0).round(), 63.0);
    assert_eq!(r.unwrap(), "63 % des passages annulés");
}

#[test]
fn neither_order_nor_times_of_cancelled_departures_count() {
    let th = Thresholds::default();
    let deps = |late: i64| {
        vec![
            dep(5, 300, false),
            dep(10, 0, false),
            dep(15, 0, true),
            dep(20, late, false),
        ]
    };
    let mut turned = deps(60);
    turned.reverse();
    assert_eq!(
        evaluate(&deps(60), true, None, th),
        evaluate(&turned, true, None, th)
    );
    assert_eq!(
        evaluate(&turned, true, None, th),
        (
            ServiceStatus::Perturbed,
            Some("Retard jusqu'à 5 min".to_string())
        )
    );
    let mut moved = deps(60);
    moved[2].scheduled = 0;
    moved[2].observed = Some(i64::MAX);
    assert_eq!(
        evaluate(&moved, true, None, th),
        evaluate(&deps(60), true, None, th)
    );
    // The times of those that run do count.
    assert_ne!(
        evaluate(&deps(600), true, None, th),
        evaluate(&deps(60), true, None, th)
    );
}
