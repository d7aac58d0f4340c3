use std::io::Write;
use transitpulse::domain::{Degrees, TransportMode};
use transitpulse::gtfs::{
    calendar_columns, download_with_fallback, gtfs_cache_path, parse_gtfs_time,
    route_type_to_mode, weekday_column, Download, DownloadStep, GtfsError, GtfsStats,
    TEC_GTFS_URL, TEC_GTFS_URL_FALLBACK,
};
use transitpulse::loader::{
    count_rows, header_index, load_calendar, load_calendar_dates, load_routes, load_stop_times,
    load_stops, load_trips, load_zip, locate_stops, stop_times_rows, CalendarDateRow, CalendarRow,
    GtfsFile, RouteRow, StopRow, StopTimeRow, TripRow, UnlocatedStop,
};
use transitpulse::timetable::{GtfsRepo, NearbyStop};

fn haversine_m(a_lat: f64, a_lon: f64, b_lat: f64, b_lon: f64) -> f64 {
    let dlat = (b_lat - a_lat).to_radians();
    let dlon = (b_lon - a_lon).to_radians();
    let h = (dlat / 2.0).sin().powi(2)
        + a_lat.to_radians().cos() * b_lat.to_radians().cos() * (dlon / 2.0).sin().powi(2);
    2.0 * 6_371_000.0 * h.sqrt().asin()
}

fn degrees(d: f64) -> Degrees {
    Degrees { bits: d.to_bits() }
}

fn stop_row(stop_id: &str, name: &str, lat: f64, lon: f64) -> StopRow {
    StopRow {
        stop_id: stop_id.into(),
        stop_name: name.into(),
        stop_desc: None,
        lat: degrees(lat),
        lon: degrees(lon),
        wheelchair: None,
        zone_id: None,
        parent_station: None,
    }
}

fn route_row(route_id: &str, short_name: &str) -> RouteRow {
    RouteRow {
        route_id: route_id.into(),
        short_name: short_name.into(),
        long_name: "Test".into(),
        route_type: 3,
        color: None,
    }
}

fn trip_row(trip_id: &str, route_id: &str, service_id: &str) -> TripRow {
    TripRow {
        trip_id: trip_id.into(),
        route_id: route_id.into(),
        service_id: service_id.into(),
        headsign: "Test".into(),
        direction: None,
    }
}

fn stop_time(trip_id: &str, seq: i64, stop_id: &str, secs: Option<i64>) -> StopTimeRow {
    StopTimeRow {
        trip_id: trip_id.into(),
        stop_sequence: seq,
        stop_id: stop_id.into(),
        arrival_secs: None,
        departure_secs: secs,
    }
}

fn service(service_id: &str, weekdays: [i64; 7], from: &str, to: &str) -> CalendarRow {
    CalendarRow {
        service_id: service_id.into(),
        monday: weekdays[0],
        tuesday: weekdays[1],
        wednesday: weekdays[2],
        thursday: weekdays[3],
        friday: weekdays[4],
        saturday: weekdays[5],
        sunday: weekdays[6],
        start_date: from.into(),
        end_date: to.into(),
    }
}

fn exception(service_id: &str, date: &str, kind: i64) -> CalendarDateRow {
    CalendarDateRow {
        service_id: service_id.into(),
        date: date.into(),
        exception_type: kind,
    }
}

fn seed_stop(repo: &mut GtfsRepo, stop_id: &str, name: &str, lat: f64, lon: f64, served: bool) {
    repo.stops.push(stop_row(stop_id, name, lat, lon));
    if served {
        let route_id = format!("r-{stop_id}");
        let trip_id = format!("t-{stop_id}");
        repo.routes.push(route_row(&route_id, "1"));
        repo.trips.push(trip_row(&trip_id, &route_id, "s1"));
        repo.stop_times
            .push(stop_time(&trip_id, 1, stop_id, Some(3600)));
    }
}

fn metres(repo: &GtfsRepo, lat: f64, lon: f64) -> Vec<u64> {
    repo.stops
        .iter()
        .map(|s| {
            haversine_m(
                lat,
                lon,
                f64::from_bits(s.lat.bits),
                f64::from_bits(s.lon.bits),
            )
            .to_bits()
        })
        .collect()
}

#[test]
fn parse_heure_gtfs() {
    assert_eq!(parse_gtfs_time("00:00:00"), Some(0));
    assert_eq!(parse_gtfs_time("15:32:00"), Some(55_920));
    assert_eq!(parse_gtfs_time("25:10:05"), Some(90_605));
    assert_eq!(parse_gtfs_time("invalid"), None);
    assert_eq!(parse_gtfs_time(""), None);
}

#[test]
fn mode_depuis_route_type() {
    assert_eq!(route_type_to_mode(0), TransportMode::Tram);
    assert_eq!(route_type_to_mode(1), TransportMode::Metro);
    assert_eq!(route_type_to_mode(2), TransportMode::Train);
    assert_eq!(route_type_to_mode(3), TransportMode::Bus);
}

#[test]
fn mapping_constantes() {
    assert_eq!(calendar_columns()[0], "service_id");
    assert!(TEC_GTFS_URL.contains("tec/static"));
    assert!(gtfs_cache_path("data").contains("tec-gtfs.zip"));
}

#[test]
fn erreur_si_colonne_absente() {
    let rec = vec!["a".to_string(), "b".to_string()];
    assert!(header_index(&rec, "zzz").is_err());
    assert_eq!(header_index(&rec, "a").unwrap(), 0);
}

#[test]
fn nearby_tri_par_distance_et_desserte() {
    let mut repo = GtfsRepo::open_in_memory();
    seed_stop(
        &mut repo,
        "near_unserved",
        "Proche non desservi",
        50.6430,
        5.5730,
        false,
    );
    seed_stop(
        &mut repo,
        "far_served",
        "Loin desservi",
        50.6445,
        5.5730,
        true,
    );

    let distances = metres(&repo, 50.6431, 5.5734);
    let got = repo.nearby_stops(&distances, 1000.0f64.to_bits());
    assert_eq!(got.len(), 2);
    assert_eq!(got[0].stop.stop_id, "far_served");
    assert!(got[0].served);
    assert!(!got[1].served);
    let nearest = repo
        .nearest_stop(&distances, 1000.0f64.to_bits())
        .unwrap();
    assert_eq!(nearest.stop_id, "far_served");
}

#[test]
fn nearby_respecte_le_rayon() {
    let mut repo = GtfsRepo::open_in_memory();
    seed_stop(&mut repo, "a", "A", 50.6430, 5.5730, true);
    seed_stop(&mut repo, "b", "B", 50.7000, 5.7000, true);
    let got = repo.nearby_stops(&metres(&repo, 50.6431, 5.5734), 500.0f64.to_bits());
    assert_eq!(got.len(), 1);
    assert_eq!(got[0].stop.stop_id, "a");
}

#[test]
fn times_are_trimmed_and_need_three_numbers() {
    assert_eq!(parse_gtfs_time(" 08:05:09 "), Some(29_109));
    assert_eq!(parse_gtfs_time("08:05"), None);
    assert_eq!(parse_gtfs_time("8:5:x"), None);
    assert_eq!(parse_gtfs_time("08:05:09:77"), Some(29_109));
    assert_eq!(parse_gtfs_time("9223372036854775807:0:0"), None);
}

#[test]
fn the_cache_lies_under_the_data_folder() {
    assert_eq!(gtfs_cache_path("data"), "data/raw/gtfs/tec-gtfs.zip");
    assert_eq!(gtfs_cache_path("data/"), "data/raw/gtfs/tec-gtfs.zip");
    assert_eq!(gtfs_cache_path(""), "raw/gtfs/tec-gtfs.zip");
}

#[test]
fn each_weekday_has_its_column() {
    assert_eq!(weekday_column("20260921").unwrap(), "monday");
    assert_eq!(weekday_column("20260922").unwrap(), "tuesday");
    assert_eq!(weekday_column("20260923").unwrap(), "wednesday");
    assert_eq!(weekday_column("20260924").unwrap(), "thursday");
    assert_eq!(weekday_column("20260925").unwrap(), "friday");
    assert_eq!(weekday_column("20260926").unwrap(), "saturday");
    assert_eq!(weekday_column("20240229").unwrap(), "thursday");
    assert_eq!(weekday_column("20260927").unwrap(), "sunday");
    assert_eq!(
        weekday_column("20260230"),
        Err(GtfsError::InvalidDate(
            "20260230".into(),
            "input is out of range".into()
        ))
    );
    assert_eq!(
        weekday_column("bientôt").unwrap_err().message(),
        "date invalide bientôt: input contains invalid characters"
    );
}

#[test]
fn a_failed_download_turns_to_the_fallback_once() {
    assert_eq!(
        download_with_fallback("u", 0, Download::Received(85)),
        DownloadStep::Done(85)
    );
    assert_eq!(
        download_with_fallback("u", 0, Download::Failed("404".into())),
        DownloadStep::Try(TEC_GTFS_URL_FALLBACK.to_string())
    );
    assert_eq!(
        download_with_fallback("u", 0, Download::Received(0)),
        DownloadStep::Try(TEC_GTFS_URL_FALLBACK.to_string())
    );
    assert_eq!(
        download_with_fallback("u", 1, Download::Failed("502".into())),
        DownloadStep::GiveUp("502".into())
    );
    assert_eq!(
        download_with_fallback("u", 1, Download::Received(0)),
        DownloadStep::GiveUp(format!("réponse GTFS vide ({TEC_GTFS_URL_FALLBACK})"))
    );
}

const STOPS: &str = "stop_id,stop_name,stop_lat,stop_lon,zone_id,parent_station,wheelchair_boarding\n\
A,\"LIEGE, Opéra\",50.6431,5.5734,Z1,,1\n\
B,LIEGE Nulle part,0,0,,A,x\n";
const ROUTES: &str = "route_id,route_short_name,route_long_name,route_type,route_color\n\
r1,1,Gare → Jemeppe,3,FF0000\n\
r2,T,Tram,0,\n\
r3,X,,?,\n";
const TRIPS: &str = "trip_id,route_id,service_id,trip_headsign,direction_id\n\
t1,r1,svc,Jemeppe,1\n\
t2,r1,svc,Gare,\n";
const STOP_TIMES: &str = "trip_id,arrival_time,departure_time,stop_id,stop_sequence\n\
t1,10:00:00,10:00:30,A,1\n\
t1,,25:00:00,B,2\n\
t1,10:02:00,10:02:00,A,last\n";
const CALENDAR: &str =
    "service_id,monday,tuesday,wednesday,thursday,friday,saturday,sunday,start_date,end_date\n\
svc,1,1,1,1,1,0,x,20260101,20261231\n";
const CALENDAR_DATES: &str = "service_id,date,exception_type\n\
svc,20260923,2\n\
svc,20260926,\n";

#[test]
fn stops_are_read_and_put_at_their_positions() {
    let stops = load_stops(&zip_of(&[("stops.txt", STOPS)])).unwrap();
    assert_eq!(stops.len(), 2);
    assert_eq!(stops[0].stop_name, "LIEGE, Opéra");
    assert_eq!(stops[0].lat, "50.6431");
    assert_eq!(stops[0].wheelchair, Some(1));
    assert_eq!(stops[0].zone_id.as_deref(), Some("Z1"));
    assert_eq!(stops[0].parent_station, None);
    assert_eq!(stops[0].stop_desc, None);
    assert_eq!(stops[1].parent_station.as_deref(), Some("A"));
    assert_eq!(stops[1].wheelchair, None);

    let positions: Vec<(Degrees, Degrees)> = stops
        .iter()
        .map(|s| {
            (
                degrees(s.lat.parse().unwrap_or(0.0)),
                degrees(s.lon.parse().unwrap_or(0.0)),
            )
        })
        .collect();
    let located = locate_stops(&stops, &positions);
    assert_eq!(located.len(), 1);
    assert_eq!(located[0].stop_id, "A");
    assert_eq!(f64::from_bits(located[0].lat.bits), 50.6431);

    let zero = locate_stops(&stops[1..], &[(degrees(-0.0), degrees(0.0))]);
    assert!(zero.is_empty());
    let on_the_line = locate_stops(&stops[1..], &[(degrees(0.0), degrees(5.0))]);
    assert_eq!(on_the_line.len(), 1);
}

#[test]
fn lines_trips_and_services_are_read() {
    let routes = load_routes(&zip_of(&[("routes.txt", ROUTES)])).unwrap();
    assert_eq!(routes.len(), 3);
    assert_eq!(routes[0].color.as_deref(), Some("FF0000"));
    assert_eq!(routes[1].route_type, 0);
    assert_eq!(routes[1].color, None);
    assert_eq!(routes[2].route_type, 3);

    let trips = load_trips(&zip_of(&[("trips.txt", TRIPS)])).unwrap();
    assert_eq!(trips[0].direction, Some(1));
    assert_eq!(trips[1].direction, None);
    assert_eq!(trips[1].headsign, "Gare");

    let calendar = load_calendar(&zip_of(&[("calendar.txt", CALENDAR)])).unwrap();
    assert_eq!(
        calendar[0],
        service("svc", [1, 1, 1, 1, 1, 0, 0], "20260101", "20261231")
    );

    let dates = load_calendar_dates(&zip_of(&[("calendar_dates.txt", CALENDAR_DATES)])).unwrap();
    assert_eq!(dates[0], exception("svc", "20260923", 2));
    assert_eq!(dates[1], exception("svc", "20260926", 0));
}

#[test]
fn calls_without_a_place_are_left_out() {
    let times = load_stop_times(&zip_of(&[("stop_times.txt", STOP_TIMES)])).unwrap();
    assert_eq!(times.len(), 2);
    assert_eq!(times[0].arrival_secs, Some(36_000));
    assert_eq!(times[0].departure_secs, Some(36_030));
    assert_eq!(times[1].arrival_secs, None);
    assert_eq!(times[1].departure_secs, Some(90_000));
    assert_eq!(times[1].stop_sequence, 2);
}

#[test]
fn the_first_missing_column_is_told() {
    let err = load_trips(&zip_of(&[("trips.txt", "trip_id,service_id\nt1,svc\n")])).unwrap_err();
    assert_eq!(err, GtfsError::MissingColumn("route_id".into()));
    assert_eq!(err.message(), "colonne route_id absente");
    assert_eq!(
        load_calendar(&zip_of(&[("calendar.txt", "service_id,monday\n")])).unwrap_err(),
        GtfsError::MissingColumn("tuesday".into())
    );
    assert_eq!(
        load_calendar_dates(&zip_of(&[(
            "calendar_dates.txt",
            "service_id,date,exception_type\na,b\n"
        )]))
        .unwrap_err(),
        GtfsError::Csv(
            "CSV error: record 1 (line: 2, byte: 31): found record with 2 fields, but the \
             previous record has 3 fields"
                .into()
        )
    );
    assert!(matches!(
        load_calendar_dates(&packed("calendar_dates.txt", b"service_id,\xff\xfe\n")),
        Err(GtfsError::Csv(message)) if message.starts_with("CSV parse error")
    ));
}

/// A ZIP file with one entry, which is stored as it is.
fn packed(name: &str, bytes: &[u8]) -> Vec<u8> {
    let mut zip = zip::ZipWriter::new(std::io::Cursor::new(Vec::new()));
    let options = zip::write::SimpleFileOptions::default()
        .compression_method(zip::CompressionMethod::Stored);
    zip.start_file(name, options).unwrap();
    zip.write_all(bytes).unwrap();
    zip.finish().unwrap().into_inner()
}

/// The same ZIP file with one byte of its entry changed.
fn damaged(mut zip: Vec<u8>, from: &[u8], to: u8) -> Vec<u8> {
    let at = zip.windows(from.len()).position(|w| w == from).unwrap();
    zip[at] = to;
    zip
}

#[test]
fn a_damaged_entry_is_told_behind_its_columns() {
    let dates = packed(
        "calendar_dates.txt",
        b"service_id,date,exception_type\nsvc,20260923,2\n",
    );
    assert_eq!(load_calendar_dates(&dates).unwrap().len(), 1);
    let bad = damaged(dates, b"20260923", b'9');
    assert_eq!(
        load_calendar_dates(&bad).unwrap_err(),
        GtfsError::Csv("Invalid checksum".into())
    );
    let dates = packed("calendar_dates.txt", b"service_id,date\nsvc,20260923\n");
    let bad = damaged(dates, b"20260923", b'9');
    assert_eq!(
        load_calendar_dates(&bad).unwrap_err(),
        GtfsError::MissingColumn("exception_type".into())
    );
}

fn zip_of(files: &[(&str, &str)]) -> Vec<u8> {
    let mut zip = zip::ZipWriter::new(std::io::Cursor::new(Vec::new()));
    let options = zip::write::SimpleFileOptions::default()
        .compression_method(zip::CompressionMethod::Deflated);
    for (name, text) in files {
        zip.start_file(*name, options).unwrap();
        zip.write_all(text.as_bytes()).unwrap();
    }
    zip.finish().unwrap().into_inner()
}

#[test]
fn a_timetable_is_read_from_its_zip_file() {
    let zip = zip_of(&[
        ("stops.txt", STOPS),
        ("routes.txt", ROUTES),
        ("trips.txt", TRIPS),
        ("stop_times.txt", STOP_TIMES),
        ("calendar.txt", CALENDAR),
        ("calendar_dates.txt", CALENDAR_DATES),
        ("shapes.txt", "anything"),
    ]);
    let tables = load_zip(&zip).unwrap();
    let stops = vec![stop_row("A", "LIEGE, Opéra", 50.6431, 5.5734)];
    assert_eq!(
        count_rows(&tables, &stops),
        GtfsStats {
            stops: 1,
            routes: 3,
            trips: 2,
            stop_times: 2,
            calendar: 1,
            calendar_dates: 2,
        }
    );
    assert_eq!(tables.stops.len(), 2);
    assert_eq!(tables.trips[0].headsign, "Jemeppe");
}

fn positions_of(stops: &[UnlocatedStop]) -> Vec<(Degrees, Degrees)> {
    stops
        .iter()
        .map(|s| {
            (
                degrees(s.lat.parse().unwrap_or(0.0)),
                degrees(s.lon.parse().unwrap_or(0.0)),
            )
        })
        .collect()
}

#[test]
fn loading_twice_leaves_the_same_tables_and_nothing_older() {
    let zip = zip_of(&[
        ("stops.txt", STOPS),
        ("routes.txt", ROUTES),
        ("trips.txt", TRIPS),
        ("stop_times.txt", STOP_TIMES),
        ("calendar.txt", CALENDAR),
        ("calendar_dates.txt", CALENDAR_DATES),
    ]);
    let load = |repo: &mut GtfsRepo| {
        let tables = load_zip(&zip).unwrap();
        let stops = locate_stops(&tables.stops, &positions_of(&tables.stops));
        repo.reload(&tables, &stops)
    };
    let mut repo = GtfsRepo::open(
        &[stop_row("OLD", "Old", 50.0, 5.0)],
        &[route_row("old", "0")],
        &[trip_row("old", "old", "old")],
        &[stop_time("old", 1, "OLD", None)],
        &[service("old", [1; 7], "20200101", "20201231")],
        &[exception("old", "20200101", 1)],
    );
    let once = load(&mut repo);
    assert_eq!(
        once,
        GtfsStats {
            stops: 1,
            routes: 3,
            trips: 2,
            stop_times: 2,
            calendar: 1,
            calendar_dates: 2,
        }
    );
    assert!(repo.stops.iter().all(|s| s.stop_id != "OLD"));
    assert!(repo.routes.iter().all(|r| r.route_id != "old"));
    assert!(repo.trips.iter().all(|t| t.trip_id != "old"));
    assert!(repo.stop_times.iter().all(|t| t.trip_id != "old"));
    assert!(repo.calendar.iter().all(|c| c.service_id != "old"));
    assert!(repo.calendar_dates.iter().all(|d| d.service_id != "old"));

    let mut again = GtfsRepo::open_in_memory();
    assert_eq!(load(&mut again), once);
    assert_eq!(load(&mut again), once);
    assert_eq!(again.stops, repo.stops);
    assert_eq!(again.routes, repo.routes);
    assert_eq!(again.trips, repo.trips);
    assert_eq!(again.stop_times, repo.stop_times);
    assert_eq!(again.calendar, repo.calendar);
    assert_eq!(again.calendar_dates, repo.calendar_dates);
}

#[test]
fn a_table_may_be_read_in_slices() {
    let header: Vec<String> = ["trip_id", "stop_sequence", "stop_id"]
        .iter()
        .map(|c| c.to_string())
        .collect();
    let records: Vec<Vec<String>> = [["t", "1", "A"], ["t", "x", "B"], ["t", "2", "C"]]
        .iter()
        .map(|r| r.iter().map(|c| c.to_string()).collect())
        .collect();
    let whole = stop_times_rows(&header, &records);
    let mut slices = stop_times_rows(&header, &records[..2]);
    slices.extend(stop_times_rows(&header, &records[2..]));
    assert_eq!(whole.len(), 2);
    assert_eq!(whole, slices);
}

#[test]
fn a_header_is_held_against_its_file() {
    let header: Vec<String> = ["service_id", "date"].iter().map(|c| c.to_string()).collect();
    assert_eq!(GtfsFile::CalendarDates.name(), "calendar_dates.txt");
    assert_eq!(
        GtfsFile::CalendarDates.check_header(&header),
        Err(GtfsError::MissingColumn("exception_type".into()))
    );
    assert_eq!(
        GtfsFile::Trips.check_header(&header),
        Err(GtfsError::MissingColumn("trip_id".into()))
    );
    let all: Vec<String> = calendar_columns().iter().map(|c| c.to_string()).collect();
    assert_eq!(GtfsFile::Calendar.check_header(&all), Ok(()));
}

#[test]
fn a_written_time_reads_back() {
    let mut last = -1;
    for h in [0i64, 1, 9, 10, 23, 24, 25, 99, 100, 999_999, 1_000_000] {
        for (m, s) in [(0, 0), (0, 59), (1, 0), (9, 9), (59, 58), (59, 59)] {
            let text = format!("{h:02}:{m:02}:{s:02}");
            let secs = h * 3600 + m * 60 + s;
            assert_eq!(parse_gtfs_time(&text), Some(secs));
            assert_eq!(parse_gtfs_time(&format!(" \t{text}\u{a0}\n")), Some(secs));
            assert!(last < secs);
            last = secs;
        }
    }
}

#[test]
fn the_first_bad_file_of_a_zip_decides() {
    assert_eq!(load_zip(b"no zip").unwrap_err(), GtfsError::Zip);
    assert_eq!(GtfsError::Zip.message(), "lecture ZIP GTFS");
    let err = load_zip(&zip_of(&[("stops.txt", STOPS)])).unwrap_err();
    assert_eq!(err, GtfsError::MissingEntry("routes.txt".into()));
    assert_eq!(err.message(), "entrée routes.txt absente du ZIP");
    let err = load_zip(&zip_of(&[("stops.txt", "stop_id\n")])).unwrap_err();
    assert_eq!(err, GtfsError::MissingColumn("stop_name".into()));
}

#[test]
fn a_later_row_takes_the_place_of_an_earlier_one() {
    let repo = GtfsRepo::open(
        &[
            stop_row("A", "Old", 50.0, 5.0),
            stop_row("B", "B", 50.0, 5.0),
            stop_row("A", "New", 50.0, 5.0),
        ],
        &[route_row("r", "1"), route_row("r", "2")],
        &[],
        &[
            stop_time("t", 1, "A", Some(1)),
            stop_time("t", 1, "B", Some(2)),
        ],
        &[],
        &[],
    );
    assert_eq!(repo.stops.len(), 2);
    assert_eq!(repo.stop("A").unwrap().name, "New");
    assert_eq!(repo.route("r").unwrap().short_name, "2");
    assert!(!repo.stop_is_served("A"));
    assert!(repo.stop_is_served("B"));
    assert!(repo.stop("C").is_none());
    assert!(repo.route("s").is_none());
}

#[test]
fn a_search_finds_served_stops_first() {
    let mut repo = GtfsRepo::open_in_memory();
    seed_stop(&mut repo, "1", "LIEGE A station", 50.0, 5.0, false);
    seed_stop(&mut repo, "2", "LIEGE Z", 50.0, 5.0, true);
    seed_stop(&mut repo, "3", "liege b", 50.0, 5.0, true);
    seed_stop(&mut repo, "4", "HUY", 50.0, 5.0, true);
    let ids = |q: &str, limit: usize| -> Vec<String> {
        repo.search_stops(q, limit)
            .into_iter()
            .map(|s| s.stop_id)
            .collect()
    };
    assert_eq!(ids(" Liege ", 10), vec!["2", "3", "1"]);
    assert_eq!(ids("LIEGE", 2), vec!["2", "3"]);
    assert_eq!(ids("", 10).len(), 4);
    assert!(ids("%", 10).is_empty());
}

#[test]
fn a_search_does_not_mind_the_case_of_accents() {
    let mut repo = GtfsRepo::open_in_memory();
    seed_stop(&mut repo, "1", "LIEGE OPÉRA", 50.0, 5.0, true);
    assert_eq!(repo.search_stops("opéra", 10).len(), 1);
    assert_eq!(repo.search_stops("OPÉRA", 10).len(), 1);
    assert!(repo.search_stops("opera", 10).is_empty());
}

#[test]
fn twenty_stops_are_near_at_most() {
    let mut repo = GtfsRepo::open_in_memory();
    for i in 0..25 {
        seed_stop(&mut repo, &format!("s{i}"), "S", 50.0, 5.0, i % 2 == 0);
    }
    let distances: Vec<u64> = (0..25).rev().map(|i| (i as f64).to_bits()).collect();
    let got = repo.nearby_stops(&distances, 100.0f64.to_bits());
    assert_eq!(got.len(), 20);
    assert_eq!(got[0].stop.stop_id, "s24");
    assert!(got[12].served);
    assert!(!got[13].served);
    assert_eq!(got[13].stop.stop_id, "s23");
}

#[test]
fn a_stop_without_a_distance_counts_as_served_and_near() {
    let mut repo = GtfsRepo::open_in_memory();
    seed_stop(&mut repo, "a", "A", 50.0, 5.0, false);
    let near = NearbyStop::from(repo.stop("a").unwrap());
    assert_eq!(near.metres, 0);
    assert!(near.served);
    assert_eq!(near.stop.stop_id, "a");
}

#[test]
fn a_station_has_its_served_platforms_and_itself() {
    let mut repo = GtfsRepo::open_in_memory();
    seed_stop(&mut repo, "S", "Station", 50.0, 5.0, false);
    seed_stop(&mut repo, "p2", "Quai 2", 50.0, 5.0, true);
    seed_stop(&mut repo, "p1", "Quai 1", 50.0, 5.0, true);
    seed_stop(&mut repo, "p0", "Quai 0", 50.0, 5.0, false);
    for i in 1..4 {
        repo.stops[i].parent_station = Some("S".into());
    }
    let ids: Vec<String> = repo
        .station_stops("S")
        .into_iter()
        .map(|s| s.stop_id)
        .collect();
    assert_eq!(ids, vec!["p1", "p2", "S"]);
}

#[test]
fn exceptions_overrule_the_calendar() {
    let mut repo = GtfsRepo::open_in_memory();
    repo.calendar
        .push(service("week", [1, 1, 1, 1, 1, 0, 0], "20260101", "20261231"));
    repo.calendar
        .push(service("end", [0, 0, 0, 0, 0, 1, 1], "20260101", "20261231"));
    repo.calendar
        .push(service("old", [1, 1, 1, 1, 1, 1, 1], "20250101", "20260922"));
    repo.calendar_dates.push(exception("end", "20260923", 1));
    repo.calendar_dates.push(exception("week", "20260924", 2));
    repo.calendar_dates.push(exception("ghost", "20260923", 1));
    assert_eq!(
        repo.active_services("20260923").unwrap(),
        vec!["week", "end"]
    );
    assert!(repo.active_services("20260924").unwrap().is_empty());
    assert_eq!(
        repo.active_services("20260922").unwrap(),
        vec!["week", "old"]
    );
    assert_eq!(
        repo.active_services("soon"),
        Err(GtfsError::InvalidDate(
            "soon".into(),
            "input contains invalid characters".into()
        ))
    );
    assert_eq!(repo.services_of("20260926", 5), vec!["end"]);
}

#[test]
fn lines_of_a_stop_come_by_short_name() {
    let mut repo = GtfsRepo::open_in_memory();
    repo.routes.push(route_row("r1", "48"));
    repo.routes.push(route_row("r2", "1"));
    repo.routes.push(route_row("r3", "5"));
    repo.trips.push(trip_row("t1", "r1", "s"));
    repo.trips.push(trip_row("t2", "r2", "s"));
    repo.trips.push(trip_row("t3", "r3", "s"));
    repo.stop_times.push(stop_time("t1", 1, "A", None));
    repo.stop_times.push(stop_time("t2", 1, "A", None));
    repo.stop_times.push(stop_time("t1", 9, "A", None));
    repo.stop_times.push(stop_time("t3", 1, "B", None));
    let names: Vec<String> = repo
        .lines_for_stop("A")
        .into_iter()
        .map(|l| l.short_name)
        .collect();
    assert_eq!(names, vec!["1", "48"]);
    assert_eq!(repo.lines_for_stop("A")[0].mode, TransportMode::Bus);
}

#[test]
fn departures_are_those_of_the_services_in_the_window() {
    let mut repo = GtfsRepo::open_in_memory();
    repo.trips.push(trip_row("t1", "r1", "week"));
    repo.trips.push(trip_row("t2", "r1", "end"));
    repo.stop_times.push(stop_time("t1", 3, "A", Some(200)));
    repo.stop_times.push(stop_time("t1", 1, "A", Some(100)));
    repo.stop_times.push(stop_time("t1", 2, "A", None));
    repo.stop_times.push(stop_time("t2", 1, "A", Some(150)));
    repo.stop_times.push(stop_time("t1", 4, "A", Some(201)));
    repo.stop_times.push(stop_time("t9", 1, "A", Some(150)));
    let week = vec!["week".to_string()];
    let got = repo.departures_at_stop("A", &week, 100, 100, 12);
    let secs: Vec<i64> = got.iter().map(|d| d.departure_secs).collect();
    assert_eq!(secs, vec![100, 200]);
    assert_eq!(got[0].route_id, "r1");
    assert_eq!(got[1].stop_sequence, 3);
    assert_eq!(repo.departures_at_stop("A", &week, 100, 100, 1).len(), 1);
    assert!(repo.departures_at_stop("A", &[], 100, 100, 12).is_empty());
}
