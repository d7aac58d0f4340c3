//! Laws of the answers: what is told to those who ask, and to those who follow a
//! stop.

use crate::api::{
    compute_status, freshness, live_message, looks_like_address, mock_status, nearby,
    nearby_from_stops, network_view, resolve_stop_id, search, search_around, status_reply,
    ApiError, Freshness, Geocoded, LiveAction, LiveInput, LiveMessage, LiveSession, NetworkView,
    Position, SearchResult, SearchStep,
};
use crate::calendar::LocalDateTime;
use crate::domain::{Stop, StopStatus};
use crate::gtfs::GtfsError;
use crate::laws::questions::{is_called_at, is_near, occurs};
use crate::network::{CommuneStatus, NetworkStatus};
use crate::realtime::RtState;
use crate::state::{fold, nearest_place, status_place, unaccent, Repo};
use crate::status::StatusService;
use crate::text::trimmed;
use crate::timetable::{GtfsRepo, NearbyStop};
use vstd::prelude::*;

verus! {

// The small network.

/// Whether `plain` is a small letter without its accent.
pub open spec fn is_plain_of(plain: char, c: char) -> bool {
    &&& (c == 'à' || c == 'â' || c == 'ä' || c == 'á' || c == 'ã') ==> plain == 'a'
    &&& (c == 'é' || c == 'è' || c == 'ê' || c == 'ë') ==> plain == 'e'
    &&& (c == 'î' || c == 'ï' || c == 'í') ==> plain == 'i'
    &&& (c == 'ô' || c == 'ö' || c == 'ó' || c == 'õ') ==> plain == 'o'
    &&& (c == 'û' || c == 'ü' || c == 'ù' || c == 'ú') ==> plain == 'u'
    &&& c == 'ç' ==> plain == 'c'
    &&& c == 'ÿ' ==> plain == 'y'
    &&& plain != c ==> is_accented_letter(c)
}

/// Whether `c` is one of the small letters that lose an accent.
pub open spec fn is_accented_letter(c: char) -> bool {
    ||| c == 'à' || c == 'â' || c == 'ä' || c == 'á' || c == 'ã'
    ||| c == 'é' || c == 'è' || c == 'ê' || c == 'ë'
    ||| c == 'î' || c == 'ï' || c == 'í'
    ||| c == 'ô' || c == 'ö' || c == 'ó' || c == 'õ'
    ||| c == 'û' || c == 'ü' || c == 'ù' || c == 'ú'
    ||| c == 'ç' || c == 'ÿ'
}

/// Accents come off letter by letter, and nothing else changes.
pub proof fn accents_come_off_letter_by_letter(s: &str, r: String, i: int)
    requires
        call_ensures(unaccent, (s,), r),
        0 <= i < s@.len(),
    ensures
        r@.len() == s@.len(),
        is_plain_of(r@[i], s@[i]),
        (s@[i] as u32) < 128 ==> r@[i] == s@[i],
{
}

/// Blanks around a text make no difference to how it is folded; what is folded has
/// no capital and no accent, and ASCII letters keep their places.
pub proof fn folding_minds_neither_blanks_nor_case(
    s: &str,
    core: &str,
    before: Seq<char>,
    after: Seq<char>,
    r: String,
    t: String,
    i: int,
)
    requires
        core@.len() > 0,
        !crate::text::is_space(core@[0]),
        !crate::text::is_space(core@.last()),
        forall|i: int| 0 <= i < before.len() ==> crate::text::is_space(#[trigger] before[i]),
        forall|i: int| 0 <= i < after.len() ==> crate::text::is_space(#[trigger] after[i]),
        s@ == before + core@ + after,
        call_ensures(fold, (s,), r),
        call_ensures(fold, (core,), t),
    ensures
        r@ == t@,
        0 <= i < r@.len() ==> !is_accented_letter(r@[i]) && !crate::text::is_capital(r@[i]),
        vstd::utf8::is_ascii_chars(core@) ==> crate::laws::communes::equal_but_case(r@, core@),
{
    crate::text::blanks_come_off(before, core@, after);
    let none = Seq::<char>::empty();
    assert(none + core@ + none =~= core@);
    crate::text::blanks_come_off(none, core@, none);
    if vstd::utf8::is_ascii_chars(core@) {
        assert(r@ == crate::text::ascii_lowered(core@));
        assert(crate::text::ascii_lowered(r@) =~= r@) by {
            assert forall|k: int| 0 <= k < r@.len() implies crate::text::ascii_lowered(r@)[k]
                == r@[k] by {
                assert(!crate::text::is_capital(r@[k]));
            }
        }
        crate::laws::communes::lemma_equal_but_case(r@, core@);
    }
}

/// The invented network, whenever it is made, has three stops of Liège, each with
/// what is known of it under its key, from data half a minute old. Each of the five
/// statuses occurs in it, with the reason that goes with it.
pub proof fn the_invented_network_shows_each_status(now: i64, r: Repo)
    requires
        call_ensures(Repo::mock, (now,), r),
    ensures
        r.stops@.len() == 3,
        r.statuses@.len() == 3,
        forall|i: int|
            0 <= i < 3 ==> {
                &&& (#[trigger] r.statuses@[i]).0@ == r.stops@[i].stop_id@
                &&& r.statuses@[i].1.stop == r.stops@[i]
                &&& r.statuses@[i].1.feed_age_secs == Some(30u64)
                &&& r.statuses@[i].1.last_updated is Some
                &&& r.statuses@[i].1.network is None
            },
        r.stops@[0].stop_id@ == "tec:liege:opera"@,
        r.stops@[1].stop_id@ == "tec:liege:republique"@,
        r.stops@[2].stop_id@ == "tec:liege:guillemins"@,
        r.stops@[0].name@ == "Liège — Opéra"@,
        r.stops@[1].name@ == "Liège — République"@,
        r.stops@[2].name@ == "Liège — Guillemins"@,
        r.statuses@[0].1.lines@[0].status == crate::domain::ServiceStatus::Normal,
        r.statuses@[0].1.lines@[1].status == crate::domain::ServiceStatus::Perturbed,
        r.statuses@[0].1.lines@[2].status == crate::domain::ServiceStatus::Reduced,
        r.statuses@[1].1.lines@[1].status == crate::domain::ServiceStatus::Stopped,
        r.statuses@[1].1.lines@[1].reason matches Some(m) && m@
            == "Ligne interrompue suite à un incident"@,
        r.statuses@[2].1.lines@[1].status == crate::domain::ServiceStatus::Unknown,
        r.statuses@[0].1.advice@ == "Service fortement réduit : prévoyez un plan B."@,
        r.statuses@[1].1.advice@ == "Service à l'arrêt : cherchez une alternative."@,
{
    crate::state::each_status_occurs_in_the_mock(r, now);
    let opera = r.statuses@[0].1.lines@;
    let republique = r.statuses@[1].1.lines@;
    crate::laws::verdicts::lemma_worst(opera);
    crate::laws::verdicts::lemma_worst(republique);
    assert(opera[2].status == crate::domain::ServiceStatus::Reduced);
    assert(crate::laws::verdicts::some_line_is(opera, crate::domain::ServiceStatus::Reduced));
    assert(!crate::laws::verdicts::some_line_is(opera, crate::domain::ServiceStatus::Stopped)) by {
        if crate::laws::verdicts::some_line_is(opera, crate::domain::ServiceStatus::Stopped) {
            let i = choose|i: int|
                0 <= i < opera.len() && (#[trigger] opera[i]).status
                    == crate::domain::ServiceStatus::Stopped;
            assert(i == 0 || i == 1 || i == 2);
        }
    }
    assert(republique[1].status == crate::domain::ServiceStatus::Stopped);
    assert(crate::laws::verdicts::some_line_is(
        republique,
        crate::domain::ServiceStatus::Stopped,
    ));
}

/// A stop of the small network is found exactly where its name, folded, holds the
/// question, folded, and the question is not empty; those found come in the order
/// of the network.
pub proof fn the_small_network_is_searched_by_folded_names(
    repo: &Repo,
    q: &str,
    question: String,
    r: Vec<Stop>,
    i: int,
    name: &str,
    folded_name: String,
)
    requires
        call_ensures(Repo::search, (repo, q), r),
        call_ensures(fold, (q,), question),
        0 <= i < repo.stops@.len(),
        name@ == repo.stops@[i].name@,
        call_ensures(fold, (name,), folded_name),
    ensures
        question@.len() > 0 && occurs(question@, folded_name@) ==> r@.contains(repo.stops@[i]),
        question@.len() == 0 ==> r@.len() == 0,
        r@.len() <= repo.stops@.len(),
        r@.contains(repo.stops@[i]) ==> question@.len() > 0 && occurs(question@, folded_name@),
{
    let p = |s: Stop| Repo::name_matches(s, q@);
    crate::table::lemma_filter_items(repo.stops@, p);
    let s = repo.stops@[i];
    assert(repo.stops@.contains(s));
    assert(p(s) == occurs(question@, folded_name@));
    if r@.contains(s) {
        let k = choose|k: int| 0 <= k < r@.len() && r@[k] == s;
        assert(r@ == repo.stops@.filter(p));
        assert(p(r@[k]));
    }
}

proof fn lemma_status_place(statuses: Seq<(String, StopStatus)>, stop_id: Seq<char>)
    ensures
        status_place(statuses, stop_id) matches Some(i) ==> 0 <= i < statuses.len()
            && statuses[i].0@ == stop_id && forall|k: int|
            0 <= k < i ==> (#[trigger] statuses[k]).0@ != stop_id,
        status_place(statuses, stop_id) is None ==> forall|k: int|
            0 <= k < statuses.len() ==> (#[trigger] statuses[k]).0@ != stop_id,
    decreases statuses.len(),
{
    if statuses.len() > 0 {
        let t = statuses.drop_last();
        lemma_status_place(t, stop_id);
        assert forall|k: int| 0 <= k < t.len() implies #[trigger] statuses[k] == t[k] by {}
    }
}

/// Whether two answers for a stop tell the same.
pub open spec fn tell_alike(a: StopStatus, b: StopStatus) -> bool {
    &&& a.stop == b.stop
    &&& a.lines@.len() == b.lines@.len()
    &&& forall|l: int|
        0 <= l < a.lines@.len() ==> {
            &&& (#[trigger] a.lines@[l]).line == b.lines@[l].line
            &&& a.lines@[l].status == b.lines@[l].status
            &&& a.lines@[l].reason == b.lines@[l].reason
            &&& a.lines@[l].departures@ == b.lines@[l].departures@
            &&& a.lines@[l].evidence@ == b.lines@[l].evidence@
        }
    &&& a.last_updated == b.last_updated
    &&& a.feed_age_secs == b.feed_age_secs
    &&& a.advice == b.advice
    &&& a.network == b.network
}

/// What is told of a stop of the small network is what is known under its key, by
/// the first entry; a stop without one is unknown, and that is told.
pub proof fn the_small_network_tells_what_it_knows(
    repo: &Repo,
    stop_id: &str,
    found: Option<StopStatus>,
    r: Result<StopStatus, ApiError>,
    i: int,
)
    requires
        call_ensures(Repo::status_for_stop, (repo, stop_id), found),
        call_ensures(mock_status, (repo, stop_id), r),
    ensures
        0 <= i < repo.statuses@.len() && repo.statuses@[i].0@ == stop_id@ && (forall|k: int|
            0 <= k < i ==> (#[trigger] repo.statuses@[k]).0@ != stop_id@) ==> {
            &&& found matches Some(st) && tell_alike(st, repo.statuses@[i].1)
            &&& r matches Ok(st) && tell_alike(st, repo.statuses@[i].1)
        },
        (forall|k: int|
            0 <= k < repo.statuses@.len() ==> (#[trigger] repo.statuses@[k]).0@ != stop_id@) ==> {
            &&& found is None
            &&& r matches Err(ApiError::NotFound(m)) && m@ == "Arrêt inconnu : "@ + stop_id@
        },
{
    lemma_status_place(repo.statuses@, stop_id@);
    if let Some(k) = status_place(repo.statuses@, stop_id@) {
        assert(repo.statuses@[k].0@ == stop_id@);
    }
}

/// The nearest stop of the small network lies within the radius, none is nearer,
/// and of those as near it is the first; there is none exactly where no stop lies
/// within.
pub proof fn no_stop_of_the_small_network_is_nearer(
    repo: &Repo,
    metres: &[u64],
    radius: u64,
    r: Option<Stop>,
) -> (i: int)
    requires
        metres@.len() == repo.stops@.len(),
        call_ensures(Repo::nearest, (repo, metres, radius), r),
    ensures
        r matches Some(s) ==> 0 <= i < repo.stops@.len() && s == repo.stops@[i] && is_near(
            metres@[i],
            radius,
        ) && (forall|k: int| 0 <= k < metres@.len() ==> metres@[i] <= #[trigger] metres@[k]) && (
        forall|k: int| 0 <= k < i ==> metres@[i] < #[trigger] metres@[k]),
        r is None ==> forall|k: int|
            0 <= k < metres@.len() ==> !is_near(#[trigger] metres@[k], radius),
{
    crate::state::no_stop_is_nearer(metres@, radius);
    lemma_first_nearest(metres@, radius);
    match nearest_place(metres@, radius) {
        Some(i) => i,
        None => 0,
    }
}

proof fn lemma_first_nearest(metres: Seq<u64>, radius: u64)
    ensures
        nearest_place(metres, radius) matches Some(i) ==> forall|k: int|
            0 <= k < i ==> metres[i] < #[trigger] metres[k],
    decreases metres.len(),
{
    if metres.len() > 0 {
        let t = metres.drop_last();
        lemma_first_nearest(t, radius);
        crate::state::no_stop_is_nearer(t, radius);
        crate::state::no_stop_is_nearer(metres, radius);
        assert forall|k: int| 0 <= k < t.len() implies #[trigger] metres[k] == t[k] by {}
    }
}

// Questions.

/// An error has the HTTP status of its kind, and tells its message.
pub proof fn errors_have_their_codes(e: &ApiError, owned: ApiError, code: u16, message: String)
    requires
        owned == *e,
        call_ensures(ApiError::status_code, (e,), code),
        call_ensures(ApiError::message, (owned,), message),
    ensures
        *e matches ApiError::BadRequest(m) ==> code == 400 && message@ == m@,
        *e matches ApiError::NotFound(m) ==> code == 404 && message@ == m@,
        *e matches ApiError::Internal(m) ==> code == 500 && message@ == m@,
{
}

/// A question looks like an address where it holds one of the digits `0` to `9`.
pub proof fn an_address_holds_a_digit(q: &str, r: bool)
    requires
        call_ensures(looks_like_address, (q,), r),
    ensures
        r <==> exists|i: int| 0 <= i < q@.len() && 48 <= (#[trigger] q@[i]) as u32 <= 57,
{
}

/// Whether stops found by name are told without a distance, each with whether a
/// trip calls there.
pub open spec fn are_without_distance(
    repo: GtfsRepo,
    stops: Seq<Stop>,
    told: Seq<NearbyStop>,
) -> bool {
    &&& told.len() == stops.len()
    &&& forall|i: int|
        0 <= i < told.len() ==> (#[trigger] told[i]).stop == stops[i] && told[i].metres == 0
            && told[i].served == is_called_at(repo, stops[i].stop_id@)
}

proof fn lemma_without_distance(repo: GtfsRepo, stops: Seq<Stop>)
    ensures
        are_without_distance(repo, stops, crate::api::without_distance(repo, stops)),
{
}

/// Stops found by name are told in their order, without a distance.
pub proof fn stops_by_name_have_no_distance(
    repo: &GtfsRepo,
    stops: &[Stop],
    r: Vec<NearbyStop>,
)
    requires
        call_ensures(nearby_from_stops, (repo, stops), r),
    ensures
        are_without_distance(*repo, stops@, r@),
{
    lemma_without_distance(*repo, stops@);
}

/// Without a timetable the small network answers a search, at once.
pub proof fn a_search_without_a_timetable_is_answered_at_once(
    repo: &Repo,
    q: &str,
    found: Vec<Stop>,
    r: SearchStep,
)
    requires
        call_ensures(Repo::search, (repo, q), found),
        call_ensures(search, (None, repo, q), r),
    ensures
        r matches SearchStep::Answer(a) && a.origin is None && a.note is None && a.stops@.len()
            == found@.len() && forall|i: int|
            0 <= i < a.stops@.len() ==> (#[trigger] a.stops@[i]).stop == found@[i]
                && a.stops@[i].metres == 0 && a.stops@[i].served,
{
}

/// With a timetable ten stops at most are found by name; they are the answer where
/// there is one and the question holds no digit. Otherwise the question is to be
/// looked up as an address.
pub proof fn a_search_by_name_is_answered_or_looked_up(
    gtfs: &GtfsRepo,
    repo: &Repo,
    q: &str,
    by_name: Vec<Stop>,
    address: bool,
    r: SearchStep,
)
    requires
        call_ensures(GtfsRepo::search_stops, (gtfs, q, 10), by_name),
        call_ensures(looks_like_address, (q,), address),
        call_ensures(search, (Some(gtfs), repo, q), r),
    ensures
        by_name@.len() > 0 && !address ==> (r matches SearchStep::Answer(a) && a.origin is None
            && a.note is None && are_without_distance(*gtfs, by_name@, a.stops@)),
        by_name@.len() == 0 || address ==> (r matches SearchStep::Geocode(stops) && stops@
            == by_name@),
{
    lemma_without_distance(*gtfs, by_name@);
}

/// Where an address was found, the stops within 1200 metres of it are the answer,
/// and a note says where there is none; where it was not, the stops found by name
/// are, and a note says where there is none.
pub proof fn an_address_is_answered_by_the_stops_around(
    gtfs: &GtfsRepo,
    by_name: &[Stop],
    place: Option<Geocoded>,
    metres: &[u64],
    near: Vec<NearbyStop>,
    r: SearchResult,
)
    requires
        metres@.len() == gtfs.stops@.len(),
        call_ensures(GtfsRepo::nearby_stops, (gtfs, metres, 0x4092_c000_0000_0000), near),
        call_ensures(search_around, (gtfs, by_name, place, metres), r),
    ensures
        r.origin == place,
        place matches Some(g) ==> {
            &&& r.stops@ == near@
            &&& near@.len() > 0 ==> r.note is None
            &&& near@.len() == 0 ==> (r.note matches Some(n) && n@
                == "Aucun arrêt dans un rayon de 1200 m autour de « "@ + g.label@ + " »"@)
        },
        place is None ==> {
            &&& are_without_distance(*gtfs, by_name@, r.stops@)
            &&& by_name@.len() > 0 ==> r.note is None
            &&& by_name@.len() == 0 ==> (r.note matches Some(n) && n@ == "Adresse introuvable"@)
        },
{
    lemma_without_distance(*gtfs, by_name@);
}

/// The stops around a position are those of the timetable; without one there is
/// no answer.
pub proof fn stops_around_need_a_timetable(
    gtfs: Option<&GtfsRepo>,
    metres: &[u64],
    radius: u64,
    near: Vec<NearbyStop>,
    r: Result<Vec<NearbyStop>, ApiError>,
)
    requires
        gtfs matches Some(g) ==> call_ensures(
            GtfsRepo::nearby_stops,
            (g, metres, radius),
            near,
        ),
        call_ensures(nearby, (gtfs, metres, radius), r),
    ensures
        gtfs is Some ==> (r matches Ok(stops) && stops@ == near@),
        gtfs is None ==> (r matches Err(ApiError::Internal(m)) && m@ == "GTFS non chargé"@),
{
}

/// A question is about the stop that it names; without a name about the nearest of
/// the timetable or, where that has none, of the small network. One that says
/// neither is refused, and so is a position without a stop near it.
pub proof fn a_question_is_about_the_stop_it_names(
    gtfs: Option<&GtfsRepo>,
    repo: &Repo,
    stop: Option<String>,
    position: Option<Position>,
    gtfs_metres: &[u64],
    repo_metres: &[u64],
    of_gtfs: Option<Stop>,
    of_repo: Option<Stop>,
    r: Result<String, ApiError>,
)
    requires
        position matches Some(p) ==> gtfs_metres@ == p.gtfs_metres@ && repo_metres@
            == p.repo_metres@,
        position is Some && gtfs is Some ==> call_ensures(
            GtfsRepo::nearest_stop,
            (gtfs->0, gtfs_metres, position->0.radius),
            of_gtfs,
        ),
        gtfs is None ==> of_gtfs is None,
        position is Some ==> call_ensures(
            Repo::nearest,
            (repo, repo_metres, position->0.radius),
            of_repo,
        ),
        call_ensures(resolve_stop_id, (gtfs, repo, stop, position), r),
    ensures
        stop matches Some(id) ==> (r matches Ok(x) && x@ == id@),
        stop is None && position is Some ==> match (of_gtfs, of_repo) {
            (Some(s), _) => r matches Ok(x) && x@ == s.stop_id@,
            (None, Some(s)) => r matches Ok(x) && x@ == s.stop_id@,
            (None, None) => r matches Err(ApiError::NotFound(m)) && m@
                == "Aucun arrêt à proximité"@,
        },
        stop is None && position is None ==> (r matches Err(ApiError::BadRequest(m)) && m@
            == "Fournir `stop` ou `lat` + `lon`"@),
{
}

/// A status is answered as it is, an unknown stop with that, and a fault with its
/// message.
pub proof fn an_outcome_is_answered(
    stop_id: &str,
    outcome: Result<Option<StopStatus>, GtfsError>,
    r: Result<StopStatus, ApiError>,
)
    requires
        call_ensures(status_reply, (stop_id, outcome), r),
    ensures
        outcome matches Ok(Some(st)) ==> (r matches Ok(x) && x == st),
        outcome matches Ok(None) ==> (r matches Err(ApiError::NotFound(m)) && m@
            == "Arrêt inconnu : "@ + stop_id@),
        outcome matches Err(e) ==> (r matches Err(ApiError::Internal(m)) && m@ == e.text()),
{
}

/// Without a timetable the small network tells the status of a stop.
pub proof fn without_a_timetable_the_small_network_answers(
    repo: &Repo,
    stop_id: &str,
    now: LocalDateTime,
    utc_ms: i64,
    mock: Result<StopStatus, ApiError>,
    r: Result<StopStatus, ApiError>,
)
    requires
        call_ensures(mock_status, (repo, stop_id), mock),
        call_ensures(compute_status, (None, repo, stop_id, now, utc_ms), r),
    ensures
        r is Ok <==> mock is Ok,
        r is Ok ==> tell_alike(r->Ok_0, mock->Ok_0),
        r is Err ==> (r->Err_0 matches ApiError::NotFound(m) && m@ == "Arrêt inconnu : "@
            + stop_id@),
{
}

/// With a timetable a stop that it does not have is unknown; every other has a
/// status, for years of four digits.
pub proof fn with_a_timetable_known_stops_are_answered(
    service: &StatusService,
    repo: &Repo,
    stop_id: &str,
    now: LocalDateTime,
    utc_ms: i64,
    status: Result<Option<StopStatus>, GtfsError>,
    r: Result<StopStatus, ApiError>,
)
    requires
        call_ensures(StatusService::stop_status, (service, stop_id, now, utc_ms), status),
        call_ensures(compute_status, (Some(service), repo, stop_id, now, utc_ms), r),
    ensures
        (forall|k: int|
            0 <= k < service.repo.stops@.len() ==> (#[trigger] service.repo.stops@[k]).stop_id@
                != stop_id@) ==> (r matches Err(ApiError::NotFound(m)) && m@
            == "Arrêt inconnu : "@ + stop_id@),
        status matches Ok(Some(st)) ==> r is Ok && r->Ok_0.stop == st.stop
            && r->Ok_0.feed_age_secs == st.feed_age_secs && r->Ok_0.last_updated
            == st.last_updated && r->Ok_0.lines@.len() == st.lines@.len(),
        status matches Ok(None) ==> r is Err,
        status is Err ==> r matches Err(ApiError::Internal(_)),
{
    let stops = service.repo.stops@;
    let p = |s: crate::loader::StopRow| s.stop_id@ == stop_id@;
    crate::table::lemma_filter_all(stops, p);
    if forall|k: int| 0 <= k < stops.len() ==> (#[trigger] stops[k]).stop_id@ != stop_id@ {
        assert(GtfsRepo::stop_row(stops, stop_id@) is None);
    }
    if let Ok(Some(st)) = status {
        let services = crate::laws::stops::services_at(*service, now);
        crate::laws::stops::lemma_line_count(*service, st, stop_id@, services, now, utc_ms);
        crate::laws::stops::lemma_line_count(*service, r->Ok_0, stop_id@, services, now, utc_ms);
    }
}

// Following a stop.

/// A cycle has the status sent; so does a text that names another stop, which is
/// then followed. A text that is blank or names the same stop, and anything else,
/// changes nothing; who leaves, or has no more cycles to come, is let go.
pub proof fn a_follower_hears_of_each_cycle(
    session: &mut LiveSession,
    input: LiveInput,
    r: LiveAction,
)
    requires
        call_ensures(LiveSession::step, (session, input), r),
    ensures
        input is Cycle ==> r == LiveAction::Push && final(session).current@
            == old(session).current@,
        input is NoMoreCycles || input is Left ==> r == LiveAction::Stop
            && final(session).current@ == old(session).current@,
        input is Other ==> r == LiveAction::Wait && final(session).current@
            == old(session).current@,
        input matches LiveInput::Text(t) ==> {
            let id = trimmed(t@);
            &&& id.len() == 0 || id == old(session).current@ ==> r == LiveAction::Wait
                && final(session).current@ == old(session).current@
            &&& id.len() > 0 && id != old(session).current@ ==> r == LiveAction::Push
                && final(session).current@ == id
        },
{
}

/// A new follower follows the stop they came for.
pub proof fn a_new_follower_follows_their_stop(stop_id: String, r: LiveSession)
    requires
        call_ensures(LiveSession::new, (stop_id,), r),
    ensures
        r.current@ == stop_id@,
{
}

/// A follower is sent the status, or told that the stop is unknown; what went
/// wrong inside is not told.
pub proof fn a_follower_is_not_told_what_went_wrong_inside(
    stop_id: &str,
    outcome: Result<StopStatus, ApiError>,
    r: LiveMessage,
)
    requires
        call_ensures(live_message, (stop_id, outcome), r),
    ensures
        outcome matches Ok(st) ==> (r matches LiveMessage::Status { stop_id: id, status } && id@
            == stop_id@ && status == st),
        outcome matches Err(ApiError::NotFound(m)) ==> (r matches LiveMessage::Error {
            stop_id: id,
            message,
        } && id@ == stop_id@ && message@ == m@),
        outcome matches Err(e) && !(e is NotFound) ==> (r matches LiveMessage::Error {
            stop_id: id,
            message,
        } && id@ == stop_id@ && message@ == "Erreur interne"@),
{
}

// The network as a whole.

/// The places of the communes with a status.
pub open spec fn places_with(communes: Seq<CommuneStatus>, status: NetworkStatus) -> Set<int> {
    Set::new(|i: int| 0 <= i < communes.len() && communes[i].status == status)
}

proof fn lemma_places_with(communes: Seq<CommuneStatus>, status: NetworkStatus)
    ensures
        places_with(communes, status).finite(),
        places_with(communes, status).len() == crate::api::count_with(communes, status),
    decreases communes.len(),
{
    reveal(Seq::filter);
    let all = places_with(communes, status);
    if communes.len() == 0 {
        assert(all =~= Set::<int>::empty());
    } else {
        let n = communes.len() - 1;
        let t = communes.drop_last();
        let before = places_with(t, status);
        lemma_places_with(t, status);
        assert forall|i: int| 0 <= i < n implies t[i] == #[trigger] communes[i] by {}
        if communes.last().status == status {
            assert(all =~= before.insert(n));
            assert(!before.contains(n));
        } else {
            assert(all =~= before);
        }
    }
}

/// The view of the network counts the communes that are degraded and those that
/// are critical; it shows the first twenty of either, and the first is the worst.
pub proof fn the_view_counts_the_communes_in_trouble(
    communes: &[CommuneStatus],
    r: NetworkView,
    k: int,
)
    requires
        call_ensures(network_view, (communes,), r),
    ensures
        r.degraded_communes == places_with(communes@, NetworkStatus::Degraded).len(),
        r.critical_communes == places_with(communes@, NetworkStatus::Critical).len(),
        r.communes@.len() <= 20,
        r.worst is Some <==> r.communes@.len() > 0,
        r.worst is Some ==> r.worst->0 == r.communes@[0],
        forall|n: int|
            0 <= n < r.communes@.len() ==> (#[trigger] r.communes@[n]).status
                != NetworkStatus::Normal && communes@.contains(r.communes@[n]),
        0 <= k < communes@.len() && communes@[k].status != NetworkStatus::Normal
            && r.communes@.len() < 20 ==> r.communes@.contains(communes@[k]),
        0 <= k < communes@.len() && communes@[k].status != NetworkStatus::Normal && (forall|j: int|
            0 <= j < k ==> (#[trigger] communes@[j]).status == NetworkStatus::Normal) ==> r.worst
            == Some(communes@[k]),
{
    let p = |c: CommuneStatus| c.status != NetworkStatus::Normal;
    let all = crate::api::signalled(communes@);
    lemma_places_with(communes@, NetworkStatus::Degraded);
    lemma_places_with(communes@, NetworkStatus::Critical);
    crate::table::lemma_filter_items(communes@, p);
    assert forall|n: int| 0 <= n < r.communes@.len() implies (#[trigger] r.communes@[n]).status
        != NetworkStatus::Normal && communes@.contains(r.communes@[n]) by {
        assert(r.communes@[n] == all[n]);
        assert(p(all[n]));
    }
    if 0 <= k < communes@.len() && communes@[k].status != NetworkStatus::Normal {
        assert(p(communes@[k]) && communes@.contains(communes@[k]));
        assert(all.contains(communes@[k]));
        if forall|j: int|
            0 <= j < k ==> (#[trigger] communes@[j]).status == NetworkStatus::Normal {
            crate::table::lemma_first_of_filter(communes@, p, k);
        }
    }
}

/// What is told of the freshness of the data is what the last cycles left: their
/// age, whether it passes the allowed one, and the counts and message.
pub proof fn freshness_tells_what_the_cycles_left(
    rt: &RtState,
    now: i64,
    allowed: u64,
    r: Freshness,
)
    requires
        allowed <= i64::MAX,
        call_ensures(freshness, (rt, now, allowed), r),
    ensures
        r.last_feed_ts == rt.last_feed_ts,
        r.observations_last == rt.observations_last,
        r.alerts_last == rt.alerts_last,
        r.last_error == rt.last_error,
        rt.last_success is None ==> r.feed_age_secs is None && r.stale,
        rt.last_success is Some ==> r.feed_age_secs is Some && r.feed_age_secs->0 == now
            - rt.last_success->0 && (r.stale <==> now - rt.last_success->0 > allowed),
{
}

} // verus!
