//! Laws of what is there to start with: values by default, empty tables, and the
//! names of files and columns.

use crate::archive::{AlertRecord, AlertTrip, Archive, Observation};
use crate::calendar::instant_of_millis;
use crate::domain::{is_within, ServiceStatus, Thresholds};
use crate::gtfs::{calendar_columns, column_of_weekday, GtfsError, GtfsStats};
use crate::laws::cancelled::{is_latest, is_latest_alert, lemma_latest, lemma_latest_alert};
use crate::laws::files::{has_column, heads, lemma_heads, lemma_none_missing};
use crate::loader::{count_rows, header_index, GtfsFile, GtfsTables, StopRow};
use crate::network::{NetworkService, NetworkStats, NetworkStatus, NetworkThresholds};
use crate::ratio::Ratio;
use crate::realtime::{RtConfig, RtState};
use crate::state::severity_rank;
use crate::status::StatusService;
use crate::text::{is_ascii_digit, to_lower_ascii};
use crate::timetable::GtfsRepo;
use vstd::prelude::*;

verus! {

/// By default a line is perturbed from three minutes on, reduced from four
/// cancelled departures in ten, and the data are stale after two minutes; a commune
/// is degraded from two cancelled trips in ten and critical from five, where five
/// are cancelled.
pub proof fn the_thresholds_by_default(t: Thresholds, n: NetworkThresholds)
    requires
        call_ensures(Thresholds::default, (), t),
        call_ensures(NetworkThresholds::default, (), n),
    ensures
        t.late_secs == 3 * 60,
        t.reduced_cancelled_ratio.num * 10 == t.reduced_cancelled_ratio.den * 4,
        t.reduced_cancelled_ratio.den > 0,
        t.stale_feed_secs == 2 * 60,
        n.degraded_ratio.num * 10 == n.degraded_ratio.den * 2,
        n.degraded_ratio.den > 0,
        n.critical_ratio.num * 10 == n.critical_ratio.den * 5,
        n.critical_ratio.den > 0,
        n.min_annulled == 5,
{
}

/// The feeds are asked every half minute, where the operator publishes them.
pub proof fn the_feeds_by_default(r: RtConfig)
    requires
        call_ensures(RtConfig::default, (), r),
    ensures
        r.poll_interval == 30,
        r.trip_updates_url@
            == "https://api-management-discovery-production.azure-api.net/api/gtfs/feed/tec/rt/trip-update"@,
        r.alerts_url@
            == "https://api-management-discovery-production.azure-api.net/api/gtfs/feed/tec/rt/alert"@,
{
}

/// Before the first cycle nothing is known: no success, no feed, no error, and
/// nothing counted.
pub proof fn nothing_is_known_before_the_first_cycle(state: RtState, stats: GtfsStats)
    requires
        call_ensures(RtState::default, (), state),
        call_ensures(GtfsStats::default, (), stats),
    ensures
        state.last_success is None,
        state.last_feed_ts is None,
        state.last_error is None,
        state.observations_last == 0,
        state.alerts_last == 0,
        stats.stops == 0,
        stats.routes == 0,
        stats.trips == 0,
        stats.stop_times == 0,
        stats.calendar == 0,
        stats.calendar_dates == 0,
{
}

/// Where the timetable is published, and where to turn when it cannot be had.
pub proof fn the_timetable_by_default()
    ensures
        crate::gtfs::TEC_GTFS_URL@
            == "https://opendata-discovery-gtfs-static.api.production.belgianmobility.io/api/gtfs/feed/tec/static"@,
        crate::gtfs::TEC_GTFS_URL_FALLBACK@
            == "https://opendata.tec-wl.be/Current%20GTFS/TEC-GTFS.zip"@,
        crate::realtime::DEFAULT_VEHICLE_POSITIONS_URL@
            == "https://api-management-discovery-production.azure-api.net/api/gtfs/feed/tec/rt/vehicle-position"@,
{
}

/// How far is near where the question does not say, and how much is told at most.
pub proof fn the_limits_of_an_answer()
    ensures
        crate::api::STATUS_RADIUS_M == 500,
        crate::api::NEARBY_RADIUS_M == 800,
        crate::api::SEARCH_LIMIT == 10,
        crate::api::COMMUNE_LIMIT == 20,
        crate::status::HORIZON_MIN == 60,
        crate::status::MAX_DEPARTURES == 12,
        crate::realtime::DEFAULT_RAW_RETENTION_DAYS == 90,
        crate::realtime::PURGE_EVERY == 120,
{
}

/// The numbers that the feeds use: a stop runs as planned (0), is skipped (1), is
/// without data (2) or not planned (3); an alert says that there is no service (1),
/// a reduced one (2), delays (3), a detour (4) or a changed service (6).
pub proof fn the_numbers_of_the_feeds()
    ensures
        crate::realtime::SCHEDULED == 0,
        crate::realtime::SKIPPED == 1,
        crate::realtime::NO_DATA == 2,
        crate::realtime::UNSCHEDULED == 3,
        crate::realtime::EFFECT_NO_SERVICE == 1,
        crate::realtime::EFFECT_REDUCED_SERVICE == 2,
        crate::realtime::EFFECT_SIGNIFICANT_DELAYS == 3,
        crate::realtime::EFFECT_DETOUR == 4,
        crate::realtime::EFFECT_MODIFIED_SERVICE == 6,
        crate::timetable::ADDED == 1,
        crate::timetable::REMOVED == 2,
{
}

/// A new timetable and a new archive hold nothing.
pub proof fn new_tables_are_empty(repo: GtfsRepo, archive: Archive)
    requires
        call_ensures(GtfsRepo::open_in_memory, (), repo),
        call_ensures(Archive::open_in_memory, (), archive),
    ensures
        repo.stops@.len() + repo.routes@.len() + repo.trips@.len() + repo.stop_times@.len()
            + repo.calendar@.len() + repo.calendar_dates@.len() == 0,
        archive.observations@.len() + archive.alerts@.len() + archive.alert_trips@.len() == 0,
        repo.wf(),
        archive.wf(),
{
}

/// An archive that is opened on stored rows holds of each table the last row under
/// each key.
pub proof fn an_archive_holds_the_last_row_of_each_key(
    observations: &[Observation],
    alerts: &[AlertRecord],
    links: &[AlertTrip],
    r: Archive,
)
    requires
        call_ensures(Archive::open, (observations, alerts, links), r),
    ensures
        crate::laws::timetables::holds_the_last(
            r.observations@,
            observations@,
            |a: Observation, b: Observation| crate::laws::capture::one_sight(a, b),
        ),
        crate::laws::timetables::holds_the_last(
            r.alerts@,
            alerts@,
            |a: AlertRecord, b: AlertRecord| crate::laws::capture::one_alert(a, b),
        ),
        crate::laws::timetables::holds_the_last(
            r.alert_trips@,
            links@,
            |a: AlertTrip, b: AlertTrip| crate::laws::capture::one_link(a, b),
        ),
{
    crate::archive::archive_keys_are_keys();
    crate::laws::timetables::lemma_holds_the_last(
        observations@,
        crate::archive::same_observation(),
        |a: Observation, b: Observation| crate::laws::capture::one_sight(a, b),
    );
    crate::laws::timetables::lemma_holds_the_last(
        alerts@,
        crate::archive::same_alert(),
        |a: AlertRecord, b: AlertRecord| crate::laws::capture::one_alert(a, b),
    );
    crate::laws::timetables::lemma_holds_the_last(
        links@,
        crate::archive::same_alert_trip(),
        |a: AlertTrip, b: AlertTrip| crate::laws::capture::one_link(a, b),
    );
}

/// The archive counts its rows, table by table.
pub proof fn the_archive_counts_its_rows(
    archive: &Archive,
    observations: usize,
    alerts: usize,
    links: usize,
)
    requires
        call_ensures(Archive::observation_count, (archive,), observations),
        call_ensures(Archive::alert_count, (archive,), alerts),
        call_ensures(Archive::alert_trip_count, (archive,), links),
    ensures
        observations == archive.observations@.len(),
        alerts == archive.alerts@.len(),
        links == archive.alert_trips@.len(),
{
}

/// The newest observation and the newest alert are those that no other is newer
/// than.
pub proof fn the_newest_rows_are_the_latest(
    archive: &Archive,
    seen: Option<i64>,
    told: Option<i64>,
    k: int,
    a: int,
)
    requires
        call_ensures(Archive::newest_observation, (archive,), seen),
        call_ensures(Archive::newest_alert, (archive,), told),
    ensures
        seen is None <==> archive.observations@.len() == 0,
        told is None <==> archive.alerts@.len() == 0,
        is_latest(*archive, k) ==> seen == Some(archive.observations@[k].feed_ts),
        is_latest_alert(*archive, a) ==> told == Some(archive.alerts@[a].feed_ts),
{
    crate::archive::newest_is_the_largest(archive.observation_stamps());
    crate::archive::newest_is_the_largest(archive.alert_stamps());
    if is_latest(*archive, k) {
        lemma_latest(*archive, k);
    }
    if is_latest_alert(*archive, a) {
        lemma_latest_alert(*archive, a);
    }
}

/// The newest feed is as old as the seconds from it to now, and not at all where it
/// is from the future; it has a date where it is not before all dates.
pub proof fn the_newest_feed_has_an_age(
    service: &StatusService,
    utc_secs: i64,
    age: Option<i64>,
    dated: bool,
    k: int,
)
    requires
        call_ensures(StatusService::latest_feed_age, (service, utc_secs), age),
        call_ensures(StatusService::feed_is_dated, (service,), dated),
    ensures
        service.archive.observations@.len() == 0 ==> age is None && dated,
        is_latest(service.archive, k) ==> {
            let ts = service.archive.observations@[k].feed_ts;
            &&& age is Some
            &&& utc_secs >= ts ==> age->0 == utc_secs - ts
            &&& utc_secs <= ts ==> age->0 == 0
            &&& dated <==> ts >= -8_334_601_228_800
        },
{
    crate::laws::stops::lemma_fresh(*service, Seq::<String>::empty(), utc_secs as int);
    crate::archive::newest_is_the_largest(service.archive.observation_stamps());
    if is_latest(service.archive, k) {
        lemma_latest(service.archive, k);
    }
}

/// The view of the network is opened on stored counts with the thresholds by
/// default, which others may take the place of.
pub proof fn the_view_is_opened_on_stored_counts(
    stats: Vec<NetworkStats>,
    th: NetworkThresholds,
    a: NetworkService,
    b: NetworkService,
)
    requires
        call_ensures(NetworkService::open, (stats,), a),
        call_ensures(NetworkService::with_thresholds, (a, th), b),
    ensures
        a.stats == stats,
        b.stats == stats,
        b.thresholds == th,
        a.thresholds.degraded_ratio.num * 10 == a.thresholds.degraded_ratio.den * 2,
        a.thresholds.critical_ratio.num * 10 == a.thresholds.critical_ratio.den * 5,
        a.thresholds.min_annulled == 5,
{
}

/// Of two shares of something, the larger is the one that is larger when both are
/// brought to one denominator.
pub proof fn shares_are_compared_over_one_denominator(a: Ratio, b: Ratio, r: bool)
    requires
        a.den > 0,
        b.den > 0,
        call_ensures(Ratio::at_least, (a, b), r),
    ensures
        r <==> a.num * b.den >= b.num * a.den,
{
}

/// Each weekday has its column, from Monday (0) to Sunday (6); among the columns of
/// the calendar it stands behind the service, in the order of the week, and the
/// first and the last date stand behind all of them.
pub proof fn the_columns_of_the_week_come_in_order(
    day: u32,
    column: &'static str,
    all: [&'static str; 10],
)
    requires
        day < 7,
        call_ensures(column_of_weekday, (day,), column),
        call_ensures(calendar_columns, (), all),
    ensures
        day == 0 ==> column@ == "monday"@,
        day == 1 ==> column@ == "tuesday"@,
        day == 2 ==> column@ == "wednesday"@,
        day == 3 ==> column@ == "thursday"@,
        day == 4 ==> column@ == "friday"@,
        day == 5 ==> column@ == "saturday"@,
        day == 6 ==> column@ == "sunday"@,
        all@[1 + day]@ == column@,
        all@[0]@ == "service_id"@,
        all@[8]@ == "start_date"@,
        all@[9]@ == "end_date"@,
{
    let texts = crate::gtfs::texts_of(all@);
    let names = crate::gtfs::calendar_column_names();
    assert(texts[1 + day] == all@[1 + day]@);
    assert(texts[0] == all@[0]@);
    assert(texts[8] == all@[8]@);
    assert(texts[9] == all@[9]@);
    assert(names[1 + day] == column@);
}

/// A column is found at the first place where its name stands; where it stands
/// nowhere, that is told with the name.
pub proof fn a_column_is_found_at_its_first_place(
    header: &[String],
    name: &str,
    r: Result<usize, GtfsError>,
    i: int,
)
    requires
        call_ensures(header_index, (header, name), r),
    ensures
        heads(header.deep_view(), i, name@) ==> r is Ok && r->Ok_0 == i,
        !has_column(header.deep_view(), name@) ==> (r matches Err(GtfsError::MissingColumn(m))
            && m@ == name@),
{
    let h = header.deep_view();
    lemma_heads(h, name@);
    crate::loader::a_column_is_where_its_name_stands(h, name@);
}

/// A header passes exactly where it has the columns that its file needs; each file
/// has its name.
pub proof fn each_file_has_its_name_and_columns(
    file: GtfsFile,
    header: &[String],
    name: &'static str,
    r: Result<(), GtfsError>,
)
    requires
        call_ensures(GtfsFile::name, (file,), name),
        call_ensures(GtfsFile::check_header, (file, header), r),
    ensures
        ({
            let h = header.deep_view();
            match file {
                GtfsFile::Stops => name@ == "stops.txt"@ && (r is Ok <==> has_column(
                    h,
                    "stop_id"@,
                ) && has_column(h, "stop_name"@) && has_column(h, "stop_lat"@) && has_column(
                    h,
                    "stop_lon"@,
                )),
                GtfsFile::Routes => name@ == "routes.txt"@ && (r is Ok <==> has_column(
                    h,
                    "route_id"@,
                ) && has_column(h, "route_short_name"@) && has_column(h, "route_long_name"@)
                    && has_column(h, "route_type"@)),
                GtfsFile::Trips => name@ == "trips.txt"@ && (r is Ok <==> has_column(
                    h,
                    "trip_id"@,
                ) && has_column(h, "route_id"@) && has_column(h, "service_id"@) && has_column(
                    h,
                    "trip_headsign"@,
                )),
                GtfsFile::StopTimes => name@ == "stop_times.txt"@ && (r is Ok <==> has_column(
                    h,
                    "arrival_time"@,
                ) && has_column(h, "departure_time"@) && has_column(h, "stop_id"@) && has_column(
                    h,
                    "stop_sequence"@,
                ) && has_column(h, "trip_id"@)),
                GtfsFile::Calendar => name@ == "calendar.txt"@ && (r is Ok <==> has_column(
                    h,
                    "service_id"@,
                ) && has_column(h, "monday"@) && has_column(h, "tuesday"@) && has_column(
                    h,
                    "wednesday"@,
                ) && has_column(h, "thursday"@) && has_column(h, "friday"@) && has_column(
                    h,
                    "saturday"@,
                ) && has_column(h, "sunday"@) && has_column(h, "start_date"@) && has_column(
                    h,
                    "end_date"@,
                )),
                GtfsFile::CalendarDates => name@ == "calendar_dates.txt"@ && (r is Ok
                    <==> has_column(h, "service_id"@) && has_column(h, "date"@) && has_column(
                    h,
                    "exception_type"@,
                )),
            }
        }),
{
    let h = header.deep_view();
    let needed = file.layout().1;
    lemma_none_missing(h, needed);
    if crate::loader::first_missing(h, needed) is None {
        assert forall|k: int| 0 <= k < needed.len() implies has_column(
            h,
            #[trigger] needed[k],
        ) by {}
        match file {
            GtfsFile::Stops | GtfsFile::Routes | GtfsFile::Trips => {
                assert(has_column(h, needed[0]) && has_column(h, needed[1]));
                assert(has_column(h, needed[2]) && has_column(h, needed[3]));
            },
            GtfsFile::StopTimes => {
                assert(has_column(h, needed[0]) && has_column(h, needed[1]));
                assert(has_column(h, needed[2]) && has_column(h, needed[3]));
                assert(has_column(h, needed[4]));
            },
            GtfsFile::Calendar => {
                assert(has_column(h, needed[0]) && has_column(h, needed[1]));
                assert(has_column(h, needed[2]) && has_column(h, needed[3]));
                assert(has_column(h, needed[4]) && has_column(h, needed[5]));
                assert(has_column(h, needed[6]) && has_column(h, needed[7]));
                assert(has_column(h, needed[8]) && has_column(h, needed[9]));
            },
            GtfsFile::CalendarDates => {
                assert(has_column(h, needed[0]) && has_column(h, needed[1]));
                assert(has_column(h, needed[2]));
            },
        }
    }
}

/// The graver a status, the lower its rank: stopped, reduced, perturbed, unknown,
/// normal.
pub proof fn graver_statuses_rank_lower(
    stopped: u8,
    reduced: u8,
    perturbed: u8,
    unknown: u8,
    normal: u8,
)
    requires
        call_ensures(severity_rank, (ServiceStatus::Stopped,), stopped),
        call_ensures(severity_rank, (ServiceStatus::Reduced,), reduced),
        call_ensures(severity_rank, (ServiceStatus::Perturbed,), perturbed),
        call_ensures(severity_rank, (ServiceStatus::Unknown,), unknown),
        call_ensures(severity_rank, (ServiceStatus::Normal,), normal),
    ensures
        stopped < reduced < perturbed < unknown < normal,
{
}

/// An instant is told as it is, where it has a date.
pub proof fn an_instant_with_a_date_is_told(ms: i64, r: Option<i64>)
    requires
        call_ensures(instant_of_millis, (ms,), r),
    ensures
        r is Some <==> -8_334_601_228_800_000 <= ms <= 8_210_266_876_799_999,
        r matches Some(x) ==> x == ms,
{
}

/// Within a radius lies what is no farther, the rim included; nothing lies within a
/// radius that is less than zero or no number.
pub proof fn the_rim_lies_within(metres: u64, radius: u64, r: bool)
    requires
        call_ensures(is_within, (metres, radius), r),
    ensures
        radius <= 0x7ff0_0000_0000_0000 ==> (r <==> metres <= radius),
        radius == 0x8000_0000_0000_0000 ==> (r <==> metres == 0),
        radius > 0x7ff0_0000_0000_0000 && radius != 0x8000_0000_0000_0000 ==> !r,
{
}

/// Each table is counted for itself.
pub proof fn each_table_is_counted(tables: &GtfsTables, stops: &[StopRow], r: GtfsStats)
    requires
        call_ensures(count_rows, (tables, stops), r),
        stops@.len() <= usize::MAX,
        tables.routes@.len() <= usize::MAX,
        tables.trips@.len() <= usize::MAX,
        tables.stop_times@.len() <= usize::MAX,
        tables.calendar@.len() <= usize::MAX,
        tables.calendar_dates@.len() <= usize::MAX,
    ensures
        r.stops == stops@.len(),
        r.routes == tables.routes@.len(),
        r.trips == tables.trips@.len(),
        r.stop_times == tables.stop_times@.len(),
        r.calendar == tables.calendar@.len(),
        r.calendar_dates == tables.calendar_dates@.len(),
{
}

/// A part reaches a share where, over one denominator, it is no less.
pub proof fn a_part_reaches_a_share(share: Ratio, part: usize, whole: usize, r: bool)
    requires
        share.den > 0,
        whole > 0,
        call_ensures(Ratio::reached_by, (share, part, whole), r),
    ensures
        r <==> part * share.den >= share.num * whole,
{
}

/// The digits are those from 0 to 9, and nothing else is one.
pub proof fn ten_characters_are_digits(c: char, r: bool)
    requires
        call_ensures(is_ascii_digit, (c,), r),
    ensures
        r <==> "0123456789"@.contains(c),
{
    reveal_strlit("0123456789");
    let all = "0123456789"@;
    if 48 <= c as u32 <= 57 {
        let k = c as u32 - 48;
        assert(all[k] == c);
    }
    if all.contains(c) {
        let k = choose|k: int| 0 <= k < all.len() && all[k] == c;
        assert(48 <= all[k] as u32 <= 57);
    }
}

/// A capital of the alphabet gets the small letter at its place; any other
/// character stays.
pub proof fn capitals_get_their_small_letters(c: char, r: char)
    requires
        call_ensures(to_lower_ascii, (c,), r),
    ensures
        forall|k: int|
            0 <= k < 26 && c == #[trigger] "ABCDEFGHIJKLMNOPQRSTUVWXYZ"@[k] ==> r
                == "abcdefghijklmnopqrstuvwxyz"@[k],
        !"ABCDEFGHIJKLMNOPQRSTUVWXYZ"@.contains(c) ==> r == c,
{
    reveal_strlit("ABCDEFGHIJKLMNOPQRSTUVWXYZ");
    reveal_strlit("abcdefghijklmnopqrstuvwxyz");
    let all = "ABCDEFGHIJKLMNOPQRSTUVWXYZ"@;
    if 65 <= c as u32 <= 90 {
        let k = c as u32 - 65;
        assert(all[k] == c);
    }
}

/// Each way that the network can fare has its word.
pub proof fn each_way_to_fare_has_its_word(status: NetworkStatus, r: &'static str)
    requires
        call_ensures(NetworkStatus::label, (status,), r),
    ensures
        status == NetworkStatus::Normal ==> r@ == "normale"@,
        status == NetworkStatus::Degraded ==> r@ == "dégradée"@,
        status == NetworkStatus::Critical ==> r@ == "critique"@,
{
}

} // verus!
