//! What the HTTP interface answers: the decisions behind each question, without
//! the network around them.

use crate::calendar::{compact_date, parsed_date, LocalDateTime, MAX_SECS, MIN_SECS};
use crate::domain::{text_of, Degrees, Stop, StopStatus};
use crate::gtfs::{weekday_in, GtfsError};
use crate::network::{CommuneStatus, NetworkStatus};
use crate::order::ordered;
use crate::realtime::RtState;
use crate::state::{nearest_place, status_place, Repo};
use crate::status::StatusService;
use crate::text::{chars_of, concat, is_ascii_digit, is_digit, same_text, trim, trimmed};
use crate::timetable::{at_most, is_served, served_then_near, GtfsRepo, NearbyStop};
use vstd::prelude::*;

verus! {

/// How far around a position a stop is looked for, in metres, where the question
/// does not say.
pub const STATUS_RADIUS_M: u32 = 500;

/// How far around a position stops are listed, in metres, where the question
/// does not say.
pub const NEARBY_RADIUS_M: u32 = 800;

/// How far around an address stops are listed: 1200 metres, by the bits of its
/// IEEE 754 double.
pub const ADDRESS_RADIUS: u64 = 0x4092_c000_0000_0000;

/// How many stops are found by name at most.
pub const SEARCH_LIMIT: usize = 10;

/// How many communes are listed at most.
pub const COMMUNE_LIMIT: usize = 20;

/// Why a question has no answer.
#[derive(Debug, PartialEq, Eq)]
pub enum ApiError {
    BadRequest(String),
    NotFound(String),
    Internal(String),
}

impl ApiError {
    /// The HTTP status that goes with it.
    pub open spec fn code(self) -> u16 {
        match self {
            ApiError::BadRequest(_) => 400,
            ApiError::NotFound(_) => 404,
            ApiError::Internal(_) => 500,
        }
    }

    /// The HTTP status that goes with it.
    pub fn status_code(&self) -> (r: u16)
        ensures
            r == self.code(),
    {
        match self {
            ApiError::BadRequest(_) => 400,
            ApiError::NotFound(_) => 404,
            ApiError::Internal(_) => 500,
        }
    }

    /// What is told to the one who asked.
    pub open spec fn text(self) -> Seq<char> {
        match self {
            ApiError::BadRequest(m) => m@,
            ApiError::NotFound(m) => m@,
            ApiError::Internal(m) => m@,
        }
    }

    /// What is told to the one who asked.
    pub fn message(self) -> (r: String)
        ensures
            r@ == self.text(),
    {
        match self {
            ApiError::BadRequest(m) => m,
            ApiError::NotFound(m) => m,
            ApiError::Internal(m) => m,
        }
    }
}

/// Whether a text holds a digit.
pub open spec fn has_digit(q: Seq<char>) -> bool {
    exists|i: int| 0 <= i < q.len() && is_digit(#[trigger] q[i])
}

/// Whether a question looks like an address: it holds a house number.
pub fn looks_like_address(q: &str) -> (r: bool)
    ensures
        r == has_digit(q@),
{
    let chars = chars_of(q);
    let mut i: usize = 0;
    while i < chars.len()
        invariant
            chars@ == q@,
            0 <= i <= chars@.len(),
            forall|k: int| 0 <= k < i ==> !is_digit(#[trigger] chars@[k]),
        decreases chars@.len() - i,
    {
        if is_ascii_digit(chars[i]) {
            return true;
        }
        i = i + 1;
    }
    false
}

/// A place that an address was found at.
#[derive(Debug)]
pub struct Geocoded {
    pub lat: Degrees,
    pub lon: Degrees,
    pub label: String,
}

/// The answer to a search.
#[derive(Debug)]
pub struct SearchResult {
    /// The stops found.
    pub stops: Vec<NearbyStop>,
    /// The place, where the question was read as an address.
    pub origin: Option<Geocoded>,
    /// What there is to say about the answer.
    pub note: Option<String>,
}

/// What a search leads to first.
#[derive(Debug)]
pub enum SearchStep {
    /// This is the answer.
    Answer(SearchResult),
    /// The question is to be looked up as an address; these stops were found by
    /// name.
    Geocode(Vec<Stop>),
}

/// Stops found by name, without a distance, with whether they are served.
pub open spec fn without_distance(repo: GtfsRepo, stops: Seq<Stop>) -> Seq<NearbyStop> {
    stops.map_values(
        |s: Stop| NearbyStop { stop: s, metres: 0, served: is_served(repo.stop_times@, s.stop_id@) },
    )
}

/// Stops found by name, without a distance, with whether they are served.
pub fn nearby_from_stops(gtfs: &GtfsRepo, stops: &[Stop]) -> (r: Vec<NearbyStop>)
    ensures
        r@ == without_distance(*gtfs, stops@),
{
    let mut out: Vec<NearbyStop> = Vec::new();
    let mut i: usize = 0;
    assert(out@ =~= without_distance(*gtfs, stops@).take(0));
    while i < stops.len()
        invariant
            0 <= i <= stops@.len(),
            out@ == without_distance(*gtfs, stops@).take(i as int),
        decreases stops@.len() - i,
    {
        let s = &stops[i];
        out.push(
            NearbyStop { stop: s.clone(), metres: 0, served: gtfs.stop_is_served(&s.stop_id) },
        );
        assert(out@ =~= without_distance(*gtfs, stops@).take(i + 1));
        i = i + 1;
    }
    assert(without_distance(*gtfs, stops@).take(stops@.len() as int) =~= without_distance(
        *gtfs,
        stops@,
    ));
    out
}

/// The stops of the timetable that a search by name finds.
pub open spec fn found_by_name(repo: GtfsRepo, q: Seq<char>) -> Seq<Stop> {
    at_most(
        ordered(repo.stops_named(q), crate::timetable::served_then_name()).map_values(
            |p: (Stop, bool)| p.0,
        ),
        SEARCH_LIMIT as int,
    )
}

/// The stops of the small network that a search finds.
pub open spec fn found_in_repo(repo: Repo, q: Seq<char>) -> Seq<Stop> {
    if crate::state::folded(q).len() == 0 {
        Seq::empty()
    } else {
        repo.stops@.filter(|s: Stop| Repo::name_matches(s, q))
    }
}

/// Searches by name. Without a timetable the small network answers. With one,
/// the stops of that name are the answer, unless there is none or the question
/// looks like an address: then it is to be looked up as an address.
pub fn search(gtfs: Option<&GtfsRepo>, repo: &Repo, q: &str) -> (r: SearchStep)
    ensures
        match gtfs {
            None => r matches SearchStep::Answer(a) && a.origin is None && a.note is None
                && a.stops@ == found_in_repo(*repo, q@).map_values(
                |s: Stop| NearbyStop { stop: s, metres: 0, served: true },
            ) && (trimmed(q@).len() == 0 ==> a.stops@.len() == 0),
            Some(g) => if found_by_name(*g, q@).len() > 0 && !has_digit(q@) {
                r matches SearchStep::Answer(a) && a.origin is None && a.note is None && a.stops@
                    == without_distance(*g, found_by_name(*g, q@))
            } else {
                r matches SearchStep::Geocode(stops) && stops@ == found_by_name(*g, q@)
            },
        },
{
    match gtfs {
        None => {
            let found = repo.search(q);
            let ghost all = found@.map_values(
                |s: Stop| NearbyStop { stop: s, metres: 0, served: true },
            );
            let mut stops: Vec<NearbyStop> = Vec::new();
            let mut i: usize = 0;
            assert(stops@ =~= all.take(0));
            while i < found.len()
                invariant
                    0 <= i <= found@.len(),
                    all == found@.map_values(
                        |s: Stop| NearbyStop { stop: s, metres: 0, served: true },
                    ),
                    stops@ == all.take(i as int),
                decreases found@.len() - i,
            {
                stops.push(NearbyStop::from(found[i].clone()));
                assert(stops@ =~= all.take(i + 1));
                i = i + 1;
            }
            assert(all.take(all.len() as int) =~= all);
            SearchStep::Answer(SearchResult { stops, origin: None, note: None })
        },
        Some(g) => {
            let by_name = g.search_stops(q, SEARCH_LIMIT);
            if by_name.len() > 0 && !looks_like_address(q) {
                SearchStep::Answer(
                    SearchResult {
                        stops: nearby_from_stops(g, &by_name),
                        origin: None,
                        note: None,
                    },
                )
            } else {
                SearchStep::Geocode(by_name)
            }
        },
    }
}

/// Ends a search whose question was looked up as an address. Where a place was
/// found, the stops within 1200 metres of it are the answer: `metres` holds the
/// distance of each stop of the timetable from it, by the bits of its IEEE 754
/// double. Where none was, the stops found by name are.
pub fn search_around(
    gtfs: &GtfsRepo,
    by_name: &[Stop],
    place: Option<Geocoded>,
    metres: &[u64],
) -> (r: SearchResult)
    requires
        place is Some ==> metres@.len() == gtfs.stops@.len(),
    ensures
        r.origin == place,
        match place {
            Some(g) => {
                &&& r.stops@ == at_most(
                    ordered(gtfs.stops_within(metres@, ADDRESS_RADIUS), served_then_near()),
                    20,
                )
                &&& text_of(r.note) == (if r.stops@.len() == 0 {
                    Some("Aucun arrêt dans un rayon de 1200 m autour de « "@ + g.label@ + " »"@)
                } else {
                    None
                })
            },
            None => {
                &&& r.stops@ == without_distance(*gtfs, by_name@)
                &&& text_of(r.note) == (if by_name@.len() == 0 {
                    Some("Adresse introuvable"@)
                } else {
                    None
                })
            },
        },
{
    match place {
        Some(g) => {
            let stops = gtfs.nearby_stops(metres, ADDRESS_RADIUS);
            let note = if stops.len() == 0 {
                let head = concat("Aucun arrêt dans un rayon de 1200 m autour de « ", &g.label);
                Some(concat(&head, " »"))
            } else {
                None
            };
            SearchResult { stops, origin: Some(g), note }
        },
        None => {
            let note = if by_name.len() == 0 {
                Some("Adresse introuvable".to_string())
            } else {
                None
            };
            SearchResult { stops: nearby_from_stops(gtfs, by_name), origin: None, note }
        },
    }
}

/// The stops around a position. Without a timetable there is no answer.
pub fn nearby(gtfs: Option<&GtfsRepo>, metres: &[u64], radius: u64) -> (r: Result<
    Vec<NearbyStop>,
    ApiError,
>)
    requires
        gtfs matches Some(g) ==> metres@.len() == g.stops@.len(),
    ensures
        match gtfs {
            Some(g) => r matches Ok(stops) && stops@ == at_most(
                ordered(g.stops_within(metres@, radius), served_then_near()),
                20,
            ),
            None => r matches Err(ApiError::Internal(m)) && m@ == "GTFS non chargé"@,
        },
{
    match gtfs {
        Some(g) => Ok(g.nearby_stops(metres, radius)),
        None => Err(ApiError::Internal("GTFS non chargé".to_string())),
    }
}

/// A position, as far as it is needed to find a stop: how far each stop of the
/// timetable and of the small network is from it, and how far is near. Distances
/// are given by the bits of their IEEE 754 doubles.
#[derive(Debug)]
pub struct Position {
    pub gtfs_metres: Vec<u64>,
    pub repo_metres: Vec<u64>,
    pub radius: u64,
}

impl Position {
    /// Whether there is a distance for each stop.
    pub open spec fn fits(self, gtfs: Option<GtfsRepo>, repo: Repo) -> bool {
        &&& gtfs matches Some(g) ==> self.gtfs_metres@.len() == g.stops@.len()
        &&& self.repo_metres@.len() == repo.stops@.len()
    }
}

/// The timetable, if any, without the reference to it.
pub open spec fn gtfs_of(gtfs: Option<&GtfsRepo>) -> Option<GtfsRepo> {
    match gtfs {
        Some(g) => Some(*g),
        None => None,
    }
}

/// The stop of the timetable that is nearest to a position.
pub open spec fn nearest_of_gtfs(gtfs: Option<GtfsRepo>, at: Position) -> Option<Stop> {
    match gtfs {
        Some(g) => {
            let near = ordered(
                g.stops_within(at.gtfs_metres@, at.radius),
                served_then_near(),
            );
            if near.len() > 0 {
                Some(near[0].stop)
            } else {
                None
            }
        },
        None => None,
    }
}

/// The stop of the small network that is nearest to a position.
pub open spec fn nearest_of_repo(repo: Repo, at: Position) -> Option<Stop> {
    match nearest_place(at.repo_metres@, at.radius) {
        Some(i) => Some(repo.stops@[i]),
        None => None,
    }
}

/// The stop that a question is about: the one it names or, without a name, the
/// nearest to its position, of the timetable first, then of the small network.
pub fn resolve_stop_id(
    gtfs: Option<&GtfsRepo>,
    repo: &Repo,
    stop: Option<String>,
    position: Option<Position>,
) -> (r: Result<String, ApiError>)
    requires
        position matches Some(p) ==> p.fits(gtfs_of(gtfs), *repo),
    ensures
        match (stop, position) {
            (Some(id), _) => r == Ok::<String, ApiError>(id),
            (None, Some(p)) => match (
                nearest_of_gtfs(gtfs_of(gtfs), p),
                nearest_of_repo(*repo, p),
            ) {
                (Some(s), _) => r == Ok::<String, ApiError>(s.stop_id),
                (None, Some(s)) => r == Ok::<String, ApiError>(s.stop_id),
                (None, None) => r matches Err(ApiError::NotFound(m)) && m@
                    == "Aucun arrêt à proximité"@,
            },
            (None, None) => r matches Err(ApiError::BadRequest(m)) && m@
                == "Fournir `stop` ou `lat` + `lon`"@,
        },
{
    if let Some(id) = stop {
        return Ok(id);
    }
    match position {
        Some(p) => {
            if let Some(g) = gtfs {
                if let Some(s) = g.nearest_stop(&p.gtfs_metres, p.radius) {
                    return Ok(s.stop_id);
                }
            }
            match repo.nearest(&p.repo_metres, p.radius) {
                Some(s) => Ok(s.stop_id),
                None => Err(ApiError::NotFound("Aucun arrêt à proximité".to_string())),
            }
        },
        None => Err(ApiError::BadRequest("Fournir `stop` ou `lat` + `lon`".to_string())),
    }
}

/// What is told of a stop that nobody knows.
pub open spec fn unknown_stop(stop_id: Seq<char>) -> Seq<char> {
    "Arrêt inconnu : "@ + stop_id
}

/// Turns the outcome of asking for a status into an answer.
pub fn status_reply(stop_id: &str, outcome: Result<Option<StopStatus>, GtfsError>) -> (r: Result<
    StopStatus,
    ApiError,
>)
    ensures
        match outcome {
            Ok(Some(st)) => r == Ok::<StopStatus, ApiError>(st),
            Ok(None) => r matches Err(ApiError::NotFound(m)) && m@ == unknown_stop(stop_id@),
            Err(e) => r matches Err(ApiError::Internal(m)) && m@ == e.text(),
        },
{
    match outcome {
        Ok(Some(st)) => Ok(st),
        Ok(None) => Err(ApiError::NotFound(concat("Arrêt inconnu : ", stop_id))),
        Err(e) => Err(ApiError::Internal(e.message())),
    }
}

/// The status of a stop of the small network.
pub fn mock_status(repo: &Repo, stop_id: &str) -> (r: Result<StopStatus, ApiError>)
    ensures
        match status_place(repo.statuses@, stop_id@) {
            Some(i) => r matches Ok(st) && st.same_as(repo.statuses@[i].1),
            None => r matches Err(ApiError::NotFound(m)) && m@ == unknown_stop(stop_id@),
        },
{
    match repo.status_for_stop(stop_id) {
        Some(st) => Ok(st),
        None => Err(ApiError::NotFound(concat("Arrêt inconnu : ", stop_id))),
    }
}

/// The status of a stop: the real one where there is a timetable, otherwise that
/// of the small network. `now` is the time on a Brussels clock, whatever the
/// clock of the machine; `utc_ms` is the instant, in milliseconds from
/// 1970-01-01T00:00:00 UTC.
pub fn compute_status(
    service: Option<&StatusService>,
    repo: &Repo,
    stop_id: &str,
    now: LocalDateTime,
    utc_ms: i64,
) -> (r: Result<StopStatus, ApiError>)
    requires
        service matches Some(s) ==> s.wf() && s.feed_has_date(),
        now.wf(),
        now.has_neighbours(),
        MIN_SECS * 1000 <= utc_ms <= MAX_SECS * 1000,
    ensures
        match service {
            Some(s) => {
                let date = compact_date(now.year as int, now.month as int, now.day as int);
                let known = GtfsRepo::stop_row(s.repo.stops@, stop_id@) is Some;
                &&& !known ==> (r matches Err(ApiError::NotFound(m)) && m@ == unknown_stop(
                    stop_id@,
                ))
                &&& known && weekday_in(date) is None ==> (r matches Err(ApiError::Internal(m))
                    && m@ == "date invalide "@ + date + ": "@ + parsed_date(date)->Err_0)
                &&& known && weekday_in(date) is Some ==> (r matches Ok(st) && s.is_status(
                    st,
                    stop_id@,
                    s.repo.services_on(date, weekday_in(date)->0),
                    now,
                    utc_ms,
                ))
            },
            None => match status_place(repo.statuses@, stop_id@) {
                Some(i) => r matches Ok(st) && st.same_as(repo.statuses@[i].1),
                None => r matches Err(ApiError::NotFound(m)) && m@ == unknown_stop(stop_id@),
            },
        },
{
    match service {
        Some(s) => status_reply(stop_id, s.stop_status(stop_id, now, utc_ms)),
        None => mock_status(repo, stop_id),
    }
}

// Following a stop live.

/// What reaches a subscriber's connection.
#[derive(Debug)]
pub enum LiveInput {
    /// A cycle of capture ended, or some were missed.
    Cycle,
    /// No cycle will ever end again.
    NoMoreCycles,
    /// The subscriber sent a text.
    Text(String),
    /// The subscriber left.
    Left,
    /// Anything else.
    Other,
}

/// What is to be done for a subscriber.
#[derive(Debug, Clone, Copy, PartialEq, Eq, Structural)]
pub enum LiveAction {
    /// The status of the stop that is followed is to be sent.
    Push,
    /// Nothing is to be done.
    Wait,
    /// The connection is to be closed.
    Stop,
}

/// A subscriber: the stop that they follow.
#[derive(Debug)]
pub struct LiveSession {
    pub current: String,
}

impl LiveSession {
    /// A subscriber to a stop.
    pub fn new(stop_id: String) -> (r: Self)
        ensures
            r.current == stop_id,
    {
        LiveSession { current: stop_id }
    }

    /// Whether a text asks to follow another stop.
    pub open spec fn asks_for_other(self, text: Seq<char>) -> bool {
        trimmed(text).len() > 0 && trimmed(text) != self.current@
    }

    /// What follows an input: a new cycle has the status sent, a text that names
    /// another stop has that stop followed and its status sent at once.
    pub fn step(&mut self, input: LiveInput) -> (r: LiveAction)
        ensures
            r == match input {
                LiveInput::Cycle => LiveAction::Push,
                LiveInput::NoMoreCycles => LiveAction::Stop,
                LiveInput::Left => LiveAction::Stop,
                LiveInput::Other => LiveAction::Wait,
                LiveInput::Text(t) => if old(self).asks_for_other(t@) {
                    LiveAction::Push
                } else {
                    LiveAction::Wait
                },
            },
            final(self).current@ == match input {
                LiveInput::Text(t) => if old(self).asks_for_other(t@) {
                    trimmed(t@)
                } else {
                    old(self).current@
                },
                _ => old(self).current@,
            },
    {
        match input {
            LiveInput::Cycle => LiveAction::Push,
            LiveInput::NoMoreCycles => LiveAction::Stop,
            LiveInput::Left => LiveAction::Stop,
            LiveInput::Other => LiveAction::Wait,
            LiveInput::Text(t) => {
                let new_id = trim(&t);
                if !new_id.as_str().is_empty() && !same_text(&new_id, &self.current) {
                    self.current = new_id;
                    LiveAction::Push
                } else {
                    LiveAction::Wait
                }
            },
        }
    }
}

/// What is sent to a subscriber.
#[derive(Debug)]
pub enum LiveMessage {
    Status { stop_id: String, status: StopStatus },
    Error { stop_id: String, message: String },
}

/// What is sent to a subscriber for the outcome of asking for a status. What went
/// wrong inside is not told.
pub fn live_message(stop_id: &str, outcome: Result<StopStatus, ApiError>) -> (r: LiveMessage)
    ensures
        match outcome {
            Ok(st) => r matches LiveMessage::Status { stop_id: id, status } && id@ == stop_id@
                && status == st,
            Err(ApiError::NotFound(m)) => r matches LiveMessage::Error { stop_id: id, message }
                && id@ == stop_id@ && message == m,
            Err(_) => r matches LiveMessage::Error { stop_id: id, message } && id@ == stop_id@
                && message@ == "Erreur interne"@,
        },
{
    let id = stop_id.to_string();
    match outcome {
        Ok(status) => LiveMessage::Status { stop_id: id, status },
        Err(ApiError::NotFound(message)) => LiveMessage::Error { stop_id: id, message },
        Err(_) => LiveMessage::Error { stop_id: id, message: "Erreur interne".to_string() },
    }
}

// The network as a whole.

/// The view of the network that is shown.
#[derive(Debug)]
pub struct NetworkView {
    /// The commune that is worst off.
    pub worst: Option<CommuneStatus>,
    /// How many communes are degraded.
    pub degraded_communes: usize,
    /// How many are critical.
    pub critical_communes: usize,
    /// Those that are either.
    pub communes: Vec<CommuneStatus>,
}

/// The communes that are degraded or critical.
pub open spec fn signalled(communes: Seq<CommuneStatus>) -> Seq<CommuneStatus> {
    communes.filter(|c: CommuneStatus| c.status != NetworkStatus::Normal)
}

/// How many communes have a status.
pub open spec fn count_with(communes: Seq<CommuneStatus>, status: NetworkStatus) -> nat {
    communes.filter(|c: CommuneStatus| c.status == status).len()
}

/// The view of the network, from the communes, the worst first: how many are in
/// trouble, and the first of those that are.
pub fn network_view(communes: &[CommuneStatus]) -> (r: NetworkView)
    ensures
        r.degraded_communes == count_with(communes@, NetworkStatus::Degraded),
        r.critical_communes == count_with(communes@, NetworkStatus::Critical),
        r.communes@ == at_most(signalled(communes@), COMMUNE_LIMIT as int),
        r.worst == (if signalled(communes@).len() > 0 {
            Some(signalled(communes@)[0])
        } else {
            None
        }),
{
    let ghost p = |c: CommuneStatus| c.status != NetworkStatus::Normal;
    let ghost pd = |c: CommuneStatus| c.status == NetworkStatus::Degraded;
    let ghost pc = |c: CommuneStatus| c.status == NetworkStatus::Critical;
    let mut degraded: usize = 0;
    let mut critical: usize = 0;
    let mut shown: Vec<CommuneStatus> = Vec::new();
    let mut i: usize = 0;
    proof {
        reveal(Seq::filter);
        assert(communes@.take(0) =~= Seq::<CommuneStatus>::empty());
        assert(shown@ =~= at_most(communes@.take(0).filter(p), COMMUNE_LIMIT as int));
    }
    while i < communes.len()
        invariant
            0 <= i <= communes@.len(),
            p == (|c: CommuneStatus| c.status != NetworkStatus::Normal),
            pd == (|c: CommuneStatus| c.status == NetworkStatus::Degraded),
            pc == (|c: CommuneStatus| c.status == NetworkStatus::Critical),
            degraded <= i,
            critical <= i,
            degraded == communes@.take(i as int).filter(pd).len(),
            critical == communes@.take(i as int).filter(pc).len(),
            shown@ == at_most(communes@.take(i as int).filter(p), COMMUNE_LIMIT as int),
        decreases communes@.len() - i,
    {
        let c = &communes[i];
        proof {
            reveal(Seq::filter);
            assert(communes@.take(i + 1).drop_last() =~= communes@.take(i as int));
            assert(communes@.take(i + 1).last() == *c);
        }
        match c.status {
            NetworkStatus::Degraded => {
                degraded = degraded + 1;
            },
            NetworkStatus::Critical => {
                critical = critical + 1;
            },
            NetworkStatus::Normal => {},
        }
        if c.status != NetworkStatus::Normal && shown.len() < COMMUNE_LIMIT {
            shown.push(c.clone());
        }
        assert(shown@ =~= at_most(communes@.take(i + 1).filter(p), COMMUNE_LIMIT as int));
        i = i + 1;
    }
    assert(communes@.take(communes@.len() as int) =~= communes@);
    let worst = if shown.len() > 0 {
        Some(shown[0].clone())
    } else {
        None
    };
    NetworkView {
        worst,
        degraded_communes: degraded,
        critical_communes: critical,
        communes: shown,
    }
}

/// How fresh the data are.
#[derive(Debug)]
pub struct Freshness {
    pub last_feed_ts: Option<i64>,
    pub feed_age_secs: Option<i64>,
    pub stale: bool,
    pub observations_last: usize,
    pub alerts_last: usize,
    pub last_error: Option<String>,
}

/// How fresh the data are at `now`, where they are stale after `stale_feed_secs`
/// seconds.
pub fn freshness(rt: &RtState, now: i64, stale_feed_secs: u64) -> (r: Freshness)
    requires
        rt.age_fits(now),
        stale_feed_secs <= i64::MAX,
    ensures
        r.last_feed_ts == rt.last_feed_ts,
        r.feed_age_secs is Some <==> rt.age(now) is Some,
        r.feed_age_secs matches Some(a) ==> a == rt.age(now)->0,
        r.stale == match rt.age(now) {
            Some(a) => a > stale_feed_secs,
            None => true,
        },
        r.observations_last == rt.observations_last,
        r.alerts_last == rt.alerts_last,
        r.last_error == rt.last_error,
{
    Freshness {
        last_feed_ts: rt.last_feed_ts,
        feed_age_secs: rt.feed_age_secs(now),
        stale: rt.is_stale(now, stale_feed_secs as i64),
        observations_last: rt.observations_last,
        alerts_last: rt.alerts_last,
        last_error: rt.last_error.clone(),
    }
}

/// The communes counted as degraded or critical are those that are signalled.
pub proof fn every_signalled_commune_is_counted(communes: Seq<CommuneStatus>)
    ensures
        count_with(communes, NetworkStatus::Degraded) + count_with(
            communes,
            NetworkStatus::Critical,
        ) == signalled(communes).len(),
    decreases communes.len(),
{
    reveal(Seq::filter);
    if communes.len() > 0 {
        every_signalled_commune_is_counted(communes.drop_last());
    }
}

} // verus!
