use transitpulse::domain::Degrees;
use transitpulse::loader::StopRow;
use transitpulse::network::{
    commune_from_stop_name, commune_of_stop, Call, CommuneStatus, NetworkService, NetworkStats,
    NetworkStatus, NetworkThresholds,
};
use transitpulse::ratio::Ratio;

fn stats(commune: &str, scheduled: i64, cancelled: i64) -> NetworkStats {
    NetworkStats {
        commune: commune.into(),
        trips_scheduled: scheduled,
        trips_cancelled: cancelled,
    }
}

fn stop(id: &str, name: &str, zone: Option<&str>) -> StopRow {
    StopRow {
        stop_id: id.into(),
        stop_name: name.into(),
        stop_desc: None,
        lat: Degrees {
            bits: 50.0f64.to_bits(),
        },
        lon: Degrees {
            bits: 5.0f64.to_bits(),
        },
        wheelchair: None,
        zone_id: zone.map(|z| z.to_string()),
        parent_station: None,
    }
}

#[test]
fn commune_depuis_nom() {
    assert_eq!(
        commune_from_stop_name("LIEGE Gare des Guillemins"),
        Some("LIEGE".into())
    );
    assert_eq!(
        commune_from_stop_name("  SCLESSIN Standard  "),
        Some("SCLESSIN".into())
    );
    assert_eq!(commune_from_stop_name(""), None);
    assert_eq!(
        commune_from_stop_name("5810 LIEGE Centre"),
        Some("LIEGE".into())
    );
}

#[test]
fn statut_derive_selon_seuils() {
    let th = NetworkThresholds::default();
    let normal = CommuneStatus::derive("A".into(), 100, 3, th);
    assert_eq!(normal.status, NetworkStatus::Normal);
    let degraded = CommuneStatus::derive("B".into(), 100, 25, th);
    assert_eq!(degraded.status, NetworkStatus::Degraded);
    let ratio = degraded.cancelled_ratio.num as f64 / degraded.cancelled_ratio.den as f64;
    assert!((ratio - 0.25).abs() < 1e-9);
    let critical = CommuneStatus::derive("C".into(), 100, 60, th);
    assert_eq!(critical.status, NetworkStatus::Critical);
    let tiny = CommuneStatus::derive("D".into(), 3, 3, th);
    assert_eq!(tiny.status, NetworkStatus::Normal);
    let empty = CommuneStatus::derive("E".into(), 0, 0, th);
    assert_eq!(empty.status, NetworkStatus::Normal);
}

#[test]
fn a_share_at_a_threshold_reaches_it() {
    let th = NetworkThresholds::default();
    assert_eq!(
        CommuneStatus::derive("A".into(), 25, 5, th).status,
        NetworkStatus::Degraded
    );
    assert_eq!(
        CommuneStatus::derive("A".into(), 10, 5, th).status,
        NetworkStatus::Critical
    );
    assert_eq!(
        CommuneStatus::derive("A".into(), 26, 5, th).status,
        NetworkStatus::Normal
    );
}

#[test]
fn each_network_status_has_its_label() {
    assert_eq!(NetworkStatus::Normal.label(), "normale");
    assert_eq!(NetworkStatus::Degraded.label(), "dégradée");
    assert_eq!(NetworkStatus::Critical.label(), "critique");
    let c = CommuneStatus::derive("C".into(), 10, 9, NetworkThresholds::default());
    assert_eq!(c.status_label, "critique");
    assert_eq!(c.cancelled_ratio, Ratio { num: 9, den: 10 });
}

#[test]
fn a_zone_number_alone_stands_for_itself() {
    assert_eq!(commune_from_stop_name(" 5810 "), Some("5810".into()));
    assert_eq!(commune_from_stop_name("   "), None);
    assert_eq!(
        commune_from_stop_name("L'ESCAILLERE Route"),
        Some("L'ESCAILLERE".into())
    );
}

#[test]
fn the_zone_stands_in_for_a_nameless_stop() {
    assert_eq!(
        commune_of_stop(&stop("a", "", Some("Z1"))),
        Some("Z1".into())
    );
    assert_eq!(
        commune_of_stop(&stop("a", "LIEGE Opéra", Some("Z1"))),
        Some("LIEGE".into())
    );
    assert_eq!(commune_of_stop(&stop("a", "", None)), None);
}

#[test]
fn communes_come_the_worst_first() {
    let net = NetworkService::open(vec![
        stats("A", 100, 10),
        stats("B", 10, 5),
        stats("C", 20, 10),
        stats("D", 0, 0),
    ]);
    let got: Vec<String> = net
        .communes(None)
        .into_iter()
        .map(|c| c.commune)
        .collect();
    assert_eq!(got, vec!["C", "B", "A", "D"]);
}

#[test]
fn a_commune_is_found_in_either_case() {
    let net = NetworkService::open(vec![stats("LIEGE", 100, 60), stats("HUY", 10, 0)]);
    let c = net.commune("liege").unwrap();
    assert_eq!(c.commune, "LIEGE");
    assert_eq!(c.status, NetworkStatus::Critical);
    assert_eq!(net.communes(Some("Huy")).len(), 1);
    assert!(net.commune("Namur").is_none());
}

#[test]
fn thresholds_apply_without_a_recount() {
    let net = NetworkService::open(vec![stats("LIEGE", 100, 10)]);
    assert_eq!(
        net.commune("LIEGE").unwrap().status,
        NetworkStatus::Normal
    );
    let net = net.with_thresholds(NetworkThresholds {
        degraded_ratio: Ratio { num: 1, den: 20 },
        critical_ratio: Ratio { num: 1, den: 2 },
        min_annulled: 1,
    });
    assert_eq!(
        net.commune("LIEGE").unwrap().status,
        NetworkStatus::Degraded
    );
}

#[test]
fn a_recount_counts_each_trip_once() {
    let stops = vec![
        stop("a", "LIEGE Opéra", None),
        stop("b", "LIEGE Guillemins", None),
        stop("c", "HUY Gare", None),
        stop("d", "", None),
    ];
    let calls = vec![
        Call { stop: 0, trip: 1 },
        Call { stop: 1, trip: 1 },
        Call { stop: 0, trip: 2 },
        Call { stop: 2, trip: 2 },
        Call { stop: 3, trip: 3 },
    ];
    let mut net = NetworkService::open(vec![stats("OLD", 1, 1)]);
    assert_eq!(net.count_calls(&stops, &calls, &[2, 3, 9]), 2);
    let liege = net.commune("LIEGE").unwrap();
    assert_eq!((liege.trips_scheduled, liege.trips_cancelled), (2, 1));
    let huy = net.commune("HUY").unwrap();
    assert_eq!((huy.trips_scheduled, huy.trips_cancelled), (1, 1));
    assert!(net.commune("OLD").is_none());
}
