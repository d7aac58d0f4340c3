//! The heart of the project: deciding, for a stop and a line, whether the
//! service is normal, perturbed, reduced, stopped or unknown.

use crate::ratio::Ratio;
use crate::text::{concat, decimal, int_text};
use vstd::prelude::*;

verus! {

/// How far a line can be relied on at a stop, now.
#[derive(Debug, Clone, Copy, PartialEq, Eq, Structural)]
pub enum ServiceStatus {
    /// Service is planned, real time is on time, and there is no alert.
    Normal,
    /// Delays beyond the threshold.
    Perturbed,
    /// A large share of the departures is cancelled.
    Reduced,
    /// No departure is planned, all are cancelled, or a severe alert stands.
    Stopped,
    /// Real-time data is missing or too old to say anything.
    Unknown,
}

/// How a line runs.
#[derive(Debug, Clone, Copy, PartialEq, Eq, Structural)]
pub enum TransportMode {
    Bus,
    Tram,
    Metro,
    Train,
}

/// A coordinate in degrees, as the bits of its IEEE 754 double. Nothing here
/// computes with it: it is carried to the map as it was read.
#[derive(Debug, Clone, Copy, PartialEq, Eq, Structural)]
pub struct Degrees {
    pub bits: u64,
}

/// A stop and where it is.
#[derive(Debug)]
pub struct Stop {
    pub stop_id: String,
    pub name: String,
    pub lat: Degrees,
    pub lon: Degrees,
}

impl Clone for Stop {
    fn clone(&self) -> (r: Self)
        ensures
            r == *self,
    {
        Stop { stop_id: self.stop_id.clone(), name: self.name.clone(), lat: self.lat, lon: self.lon }
    }
}

/// A line of the network.
#[derive(Debug)]
pub struct Line {
    pub route_id: String,
    pub short_name: String,
    pub long_name: String,
    pub mode: TransportMode,
}

impl Clone for Line {
    fn clone(&self) -> (r: Self)
        ensures
            r == *self,
    {
        Line {
            route_id: self.route_id.clone(),
            short_name: self.short_name.clone(),
            long_name: self.long_name.clone(),
            mode: self.mode,
        }
    }
}

/// A departure from a stop, as planned and, where it was seen, as observed.
/// Instants are milliseconds from 1970-01-01T00:00:00 UTC.
#[derive(Debug)]
pub struct Departure {
    pub trip_id: String,
    pub headsign: String,
    pub scheduled: i64,
    pub observed: Option<i64>,
    pub cancelled: bool,
}

impl Clone for Departure {
    fn clone(&self) -> (r: Self)
        ensures
            r == *self,
    {
        Departure {
            trip_id: self.trip_id.clone(),
            headsign: self.headsign.clone(),
            scheduled: self.scheduled,
            observed: self.observed,
            cancelled: self.cancelled,
        }
    }
}

/// The whole seconds in `ms` milliseconds, towards zero.
pub open spec fn whole_secs(ms: int) -> int {
    if ms >= 0 {
        ms / 1000
    } else {
        -((-ms) / 1000)
    }
}

impl Departure {
    /// The observed delay in seconds, where there is one.
    pub open spec fn delay(self) -> Option<int> {
        match self.observed {
            Some(o) => Some(whole_secs(o - self.scheduled)),
            None => None,
        }
    }

    /// The observed delay in seconds of a departure that runs.
    pub open spec fn running_delay(self) -> Option<int> {
        if self.cancelled {
            None
        } else {
            self.delay()
        }
    }

    /// The observed delay in seconds (positive when late), where the departure
    /// was observed.
    pub fn delay_secs(&self) -> (r: Option<i64>)
        ensures
            r matches Some(d) ==> self.delay() == Some(d as int),
            r is None ==> self.delay() is None,
    {
        match self.observed {
            Some(o) => {
                let ms: i128 = o as i128 - self.scheduled as i128;
                if ms >= 0 {
                    Some((ms / 1000) as i64)
                } else {
                    Some(-(((-ms) / 1000) as i64))
                }
            },
            None => None,
        }
    }
}

/// Whether a distance lies within a radius, both by the bits of their IEEE 754
/// doubles. Distances are never negative. Within a radius that is negative or
/// no number nothing lies, and within a negative zero only what is at zero.
pub open spec fn within(metres: u64, radius: u64) -> bool {
    ||| radius <= INFINITY && metres <= radius
    ||| radius == NEGATIVE_ZERO && metres == 0
}

/// Whether a distance lies within a radius.
pub fn is_within(metres: u64, radius: u64) -> (r: bool)
    ensures
        r == within(metres, radius),
{
    (radius <= INFINITY && metres <= radius) || (radius == NEGATIVE_ZERO && metres == 0)
}

/// The bits of the double that is larger than every number.
pub const INFINITY: u64 = 0x7ff0_0000_0000_0000;

/// The bits of the double that is zero with a minus sign.
pub const NEGATIVE_ZERO: u64 = 0x8000_0000_0000_0000;

/// The thresholds of the status engine.
#[derive(Debug, Clone, Copy, PartialEq, Eq, Structural)]
pub struct Thresholds {
    /// The delay, in seconds, from which a line is perturbed.
    pub late_secs: i64,
    /// The share of cancelled departures from which the service is reduced.
    pub reduced_cancelled_ratio: Ratio,
    /// The age, in seconds, beyond which the real-time feed is stale.
    pub stale_feed_secs: u64,
}

impl Thresholds {
    /// Whether the share is one.
    pub open spec fn wf(self) -> bool {
        self.reduced_cancelled_ratio.wf()
    }
}

impl Default for Thresholds {
    fn default() -> (r: Self)
        ensures
            r.late_secs == 180,
            r.reduced_cancelled_ratio == (Ratio { num: 4, den: 10 }),
            r.stale_feed_secs == 120,
            r.wf(),
    {
        Thresholds {
            late_secs: 180,
            reduced_cancelled_ratio: Ratio { num: 4, den: 10 },
            stale_feed_secs: 120,
        }
    }
}

/// How many of `departures` are cancelled.
pub open spec fn cancelled_count(departures: Seq<Departure>) -> nat {
    departures.filter(|d: Departure| d.cancelled).len()
}

/// The largest delay among the departures that run and were observed.
pub open spec fn worst_delay(departures: Seq<Departure>) -> Option<int>
    decreases departures.len(),
{
    if departures.len() == 0 {
        None
    } else {
        let before = worst_delay(departures.drop_last());
        match (before, departures.last().running_delay()) {
            (Some(w), Some(d)) => Some(
                if d > w {
                    d
                } else {
                    w
                },
            ),
            (None, Some(d)) => Some(d),
            (w, None) => w,
        }
    }
}

/// Whether a share in percent is a half whose IEEE 754 double lies just below
/// it: 14.5, 28.5, 56.5 or 57.5.
pub open spec fn is_low_half(part: int, whole: int) -> bool {
    ||| 200 * part == 29 * whole
    ||| 200 * part == 57 * whole
    ||| 200 * part == 113 * whole
    ||| 200 * part == 115 * whole
}

/// `part` of `whole` in percent, to the nearest whole number. Halves go up, but
/// for those whose double lies just below.
pub open spec fn percent(part: int, whole: int) -> int {
    if is_low_half(part, whole) {
        (200 * part - whole) / (2 * whole)
    } else {
        (200 * part + whole) / (2 * whole)
    }
}

/// The status of a line and the reason for it, from its next departures.
pub open spec fn verdict(
    departures: Seq<Departure>,
    rt_fresh: bool,
    severe_alert: Option<Seq<char>>,
    thresholds: Thresholds,
) -> (ServiceStatus, Option<Seq<char>>) {
    let total = departures.len() as int;
    let cancelled = cancelled_count(departures) as int;
    let share = thresholds.reduced_cancelled_ratio;
    let late = match worst_delay(departures) {
        Some(d) => d,
        None => 0,
    };
    if total == 0 {
        (ServiceStatus::Stopped, Some("Aucun passage prévu à cet arrêt"@))
    } else if !rt_fresh {
        (ServiceStatus::Unknown, Some("Données temps réel indisponibles ou trop anciennes"@))
    } else if severe_alert is Some {
        (ServiceStatus::Stopped, severe_alert)
    } else if cancelled == total {
        (ServiceStatus::Stopped, Some("Tous les passages sont annulés"@))
    } else if crate::ratio::quotient_at_least(cancelled, total, share.num as int, share.den as int) {
        (
            ServiceStatus::Reduced,
            Some(int_text(percent(cancelled, total)) + " % des passages annulés"@),
        )
    } else if late >= thresholds.late_secs {
        (
            ServiceStatus::Perturbed,
            Some("Retard jusqu'à "@ + int_text(whole_minutes(late)) + " min"@),
        )
    } else {
        (ServiceStatus::Normal, None)
    }
}

/// The whole minutes in `secs` seconds, towards zero.
pub open spec fn whole_minutes(secs: int) -> int {
    if secs >= 0 {
        secs / 60
    } else {
        -((-secs) / 60)
    }
}

/// The text of an optional string.
pub open spec fn text_of(s: Option<String>) -> Option<Seq<char>> {
    match s {
        Some(t) => Some(t@),
        None => None,
    }
}

/// The text of an optional string slice.
pub open spec fn str_of(s: Option<&str>) -> Option<Seq<char>> {
    match s {
        Some(t) => Some(t@),
        None => None,
    }
}

proof fn lemma_cancelled_step(departures: Seq<Departure>, i: int)
    requires
        0 <= i < departures.len(),
    ensures
        cancelled_count(departures.take(i + 1)) == cancelled_count(departures.take(i)) + (
        if departures[i].cancelled {
            1int
        } else {
            0
        }),
        cancelled_count(departures.take(i)) <= i,
    decreases i,
{
    let p = |d: Departure| d.cancelled;
    assert(departures.take(i + 1).drop_last() =~= departures.take(i));
    assert(departures.take(i + 1).last() == departures[i]);
    reveal(Seq::filter);
    if i > 0 {
        lemma_cancelled_step(departures, i - 1);
    } else {
        assert(departures.take(0) =~= Seq::<Departure>::empty());
    }
}

/// Decides the status of a line from its next departures.
///
/// `rt_fresh` says whether recent real-time data is at hand for the line, and
/// `severe_alert` carries the message of a major alert that covers it.
///
/// Without fresh real-time data and with departures planned the answer is
/// `Unknown`, never `Stopped`: a hole in the data is not a breakdown.
pub fn evaluate(
    departures: &[Departure],
    rt_fresh: bool,
    severe_alert: Option<&str>,
    thresholds: Thresholds,
) -> (r: (ServiceStatus, Option<String>))
    requires
        thresholds.wf(),
    ensures
        (r.0, text_of(r.1)) == verdict(departures@, rt_fresh, str_of(severe_alert), thresholds),
{
    if departures.len() == 0 {
        return (ServiceStatus::Stopped, Some("Aucun passage prévu à cet arrêt".to_string()));
    }
    if !rt_fresh {
        return (
            ServiceStatus::Unknown,
            Some("Données temps réel indisponibles ou trop anciennes".to_string()),
        );
    }
    if let Some(msg) = severe_alert {
        return (ServiceStatus::Stopped, Some(msg.to_string()));
    }
    let mut cancelled: usize = 0;
    let mut worst: Option<i64> = None;
    let mut i: usize = 0;
    assert(departures@.take(0) =~= Seq::<Departure>::empty());
    assert(cancelled_count(departures@.take(0)) == 0) by {
        reveal(Seq::filter);
    }
    while i < departures.len()
        invariant
            0 <= i <= departures@.len(),
            cancelled <= i,
            cancelled == cancelled_count(departures@.take(i as int)),
            worst matches Some(w) ==> worst_delay(departures@.take(i as int)) == Some(w as int),
            worst is None ==> worst_delay(departures@.take(i as int)) is None,
        decreases departures@.len() - i,
    {
        let d = &departures[i];
        proof {
            lemma_cancelled_step(departures@, i as int);
            assert(departures@.take(i + 1).drop_last() =~= departures@.take(i as int));
            assert(departures@.take(i + 1).last() == departures@[i as int]);
        }
        if d.cancelled {
            cancelled = cancelled + 1;
        } else if let Some(delay) = d.delay_secs() {
            worst = match worst {
                Some(w) => if delay > w {
                    Some(delay)
                } else {
                    Some(w)
                },
                None => Some(delay),
            };
        }
        i = i + 1;
    }
    assert(departures@.take(departures@.len() as int) =~= departures@);
    let total: usize = departures.len();
    if cancelled == total {
        return (ServiceStatus::Stopped, Some("Tous les passages sont annulés".to_string()));
    }
    if thresholds.reduced_cancelled_ratio.reached_by(cancelled, total) {
        let (c, t) = (cancelled as u128, total as u128);
        let (twice, low) = (200 * c, [29 * t, 57 * t, 113 * t, 115 * t]);
        let is_low = twice == low[0] || twice == low[1] || twice == low[2] || twice == low[3];
        let p: u128 = if is_low {
            (twice - t) / (2 * t)
        } else {
            (twice + t) / (2 * t)
        };
        assert(p <= 101) by (nonlinear_arith)
            requires
                p == (200 * c + t) / (2 * t) || p == (200 * c - t) / (2 * t),
                c <= t,
                t > 0,
        ;
        let number = decimal(p as i64);
        return (
            ServiceStatus::Reduced,
            Some(concat(number.as_str(), " % des passages annulés")),
        );
    }
    let late: i64 = match worst {
        Some(w) => w,
        None => 0,
    };
    if late >= thresholds.late_secs {
        let minutes: i64 = if late >= 0 {
            late / 60
        } else {
            -(((-(late as i128)) / 60) as i64)
        };
        let head = concat("Retard jusqu'à ", decimal(minutes).as_str());
        return (ServiceStatus::Perturbed, Some(concat(head.as_str(), " min")));
    }
    (ServiceStatus::Normal, None)
}

/// The sentence that helps a traveller decide, for a status.
pub open spec fn advice_text(status: ServiceStatus) -> Seq<char> {
    match status {
        ServiceStatus::Normal => "Vous pouvez compter sur ce bus."@,
        ServiceStatus::Perturbed => "Retard en cours : prévoyez plus large."@,
        ServiceStatus::Reduced => "Service fortement réduit : prévoyez un plan B."@,
        ServiceStatus::Stopped => "Service à l'arrêt : cherchez une alternative."@,
        ServiceStatus::Unknown => "Données manquantes : vérifiez un arrêt voisin."@,
    }
}

/// The sentence that helps a traveller decide, for a status.
pub fn advice(status: ServiceStatus) -> (r: &'static str)
    ensures
        r@ == advice_text(status),
{
    match status {
        ServiceStatus::Normal => "Vous pouvez compter sur ce bus.",
        ServiceStatus::Perturbed => "Retard en cours : prévoyez plus large.",
        ServiceStatus::Reduced => "Service fortement réduit : prévoyez un plan B.",
        ServiceStatus::Stopped => "Service à l'arrêt : cherchez une alternative.",
        ServiceStatus::Unknown => "Données manquantes : vérifiez un arrêt voisin.",
    }
}

/// What a piece of evidence for a status shows.
#[derive(Debug, Clone, Copy, PartialEq, Eq, Structural)]
pub enum EvidenceKind {
    /// A trip that does not run.
    Cancelled,
}

/// A piece of evidence for the status of a line.
#[derive(Debug)]
pub struct Evidence {
    pub kind: EvidenceKind,
    pub trip_id: String,
}

impl Clone for Evidence {
    fn clone(&self) -> (r: Self)
        ensures
            r == *self,
    {
        Evidence { kind: self.kind, trip_id: self.trip_id.clone() }
    }
}

/// The evidence in `departures`: one piece for each departure that is
/// cancelled, in their order.
pub open spec fn evidence_in(departures: Seq<Departure>) -> Seq<Evidence> {
    departures.filter(|d: Departure| d.cancelled).map_values(
        |d: Departure| Evidence { kind: EvidenceKind::Cancelled, trip_id: d.trip_id },
    )
}

/// The evidence in `departures`.
pub fn evidence(departures: &[Departure]) -> (r: Vec<Evidence>)
    ensures
        r@ == evidence_in(departures@),
{
    let mut out: Vec<Evidence> = Vec::new();
    let mut i: usize = 0;
    assert(departures@.take(0) =~= Seq::<Departure>::empty());
    assert(out@ =~= evidence_in(departures@.take(0))) by {
        reveal(Seq::filter);
    }
    while i < departures.len()
        invariant
            0 <= i <= departures@.len(),
            out@ == evidence_in(departures@.take(i as int)),
        decreases departures@.len() - i,
    {
        let d = &departures[i];
        let ghost before = out@;
        proof {
            assert(departures@.take(i + 1).drop_last() =~= departures@.take(i as int));
            assert(departures@.take(i + 1).last() == departures@[i as int]);
            reveal(Seq::filter);
        }
        if d.cancelled {
            out.push(Evidence { kind: EvidenceKind::Cancelled, trip_id: d.trip_id.clone() });
        }
        assert(out@ =~= evidence_in(departures@.take(i + 1)));
        i = i + 1;
    }
    assert(departures@.take(departures@.len() as int) =~= departures@);
    out
}

/// A line at a stop: its status, what it rests on, and the next departures.
#[derive(Debug)]
pub struct LineStatus {
    pub line: Line,
    pub status: ServiceStatus,
    pub departures: Vec<Departure>,
    pub reason: Option<String>,
    pub evidence: Vec<Evidence>,
}

impl LineStatus {
    /// Whether two values say the same.
    pub open spec fn same_as(self, other: LineStatus) -> bool {
        &&& self.line == other.line
        &&& self.status == other.status
        &&& self.departures@ == other.departures@
        &&& self.reason == other.reason
        &&& self.evidence@ == other.evidence@
    }
}

impl Clone for LineStatus {
    fn clone(&self) -> (r: Self)
        ensures
            r.same_as(*self),
    {
        let departures = self.departures.clone();
        let evidence = self.evidence.clone();
        assert(departures@ =~= self.departures@);
        assert(evidence@ =~= self.evidence@);
        LineStatus {
            line: self.line.clone(),
            status: self.status,
            departures,
            reason: self.reason.clone(),
            evidence,
        }
    }
}

/// How the network fares around a stop: the share of trips cancelled in the
/// commune of the stop.
#[derive(Debug)]
pub struct NetworkContext {
    pub commune: String,
    pub status: String,
    pub status_label: String,
    pub cancelled_ratio: Ratio,
    pub trips_cancelled: i64,
    pub trips_scheduled: i64,
}

impl Clone for NetworkContext {
    fn clone(&self) -> (r: Self)
        ensures
            r == *self,
    {
        NetworkContext {
            commune: self.commune.clone(),
            status: self.status.clone(),
            status_label: self.status_label.clone(),
            cancelled_ratio: self.cancelled_ratio,
            trips_cancelled: self.trips_cancelled,
            trips_scheduled: self.trips_scheduled,
        }
    }
}

/// The whole answer for a stop: all the lines that should pass there.
/// `last_updated` is in milliseconds from 1970-01-01T00:00:00 UTC.
#[derive(Debug)]
pub struct StopStatus {
    pub stop: Stop,
    pub lines: Vec<LineStatus>,
    pub last_updated: Option<i64>,
    pub feed_age_secs: Option<u64>,
    pub advice: String,
    pub network: Option<NetworkContext>,
}

impl StopStatus {
    /// Whether two values say the same.
    pub open spec fn same_as(self, other: StopStatus) -> bool {
        &&& self.stop == other.stop
        &&& self.lines@.len() == other.lines@.len()
        &&& forall|i: int|
            0 <= i < self.lines@.len() ==> (#[trigger] self.lines@[i]).same_as(other.lines@[i])
        &&& self.last_updated == other.last_updated
        &&& self.feed_age_secs == other.feed_age_secs
        &&& self.advice == other.advice
        &&& self.network == other.network
    }
}

impl Clone for StopStatus {
    fn clone(&self) -> (r: Self)
        ensures
            r.same_as(*self),
    {
        let lines = self.lines.clone();
        StopStatus {
            stop: self.stop.clone(),
            lines,
            last_updated: self.last_updated,
            feed_age_secs: self.feed_age_secs,
            advice: self.advice.clone(),
            network: self.network.clone(),
        }
    }
}

/// The golden rule: with departures planned and no fresh real-time data, the
/// status is `Unknown`, whatever else is known. It is `Unknown` in no other case.
pub proof fn a_hole_in_the_data_is_no_breakdown(
    departures: Seq<Departure>,
    rt_fresh: bool,
    severe_alert: Option<Seq<char>>,
    thresholds: Thresholds,
)
    ensures
        verdict(departures, rt_fresh, severe_alert, thresholds).0 == ServiceStatus::Unknown <==> (
        departures.len() > 0 && !rt_fresh),
{
}

/// A line is `Stopped` in three cases and in no other: no departure is planned;
/// or, on fresh data, a severe alert covers it or every departure is cancelled.
pub proof fn a_line_is_stopped_only_when(
    departures: Seq<Departure>,
    rt_fresh: bool,
    severe_alert: Option<Seq<char>>,
    thresholds: Thresholds,
)
    ensures
        verdict(departures, rt_fresh, severe_alert, thresholds).0 == ServiceStatus::Stopped <==> (
        departures.len() == 0 || (rt_fresh && (severe_alert is Some || forall|i: int|
            0 <= i < departures.len() ==> (#[trigger] departures[i]).cancelled))),
{
    lemma_all_cancelled(departures);
}

proof fn lemma_all_cancelled(departures: Seq<Departure>)
    ensures
        cancelled_count(departures) <= departures.len(),
        cancelled_count(departures) == departures.len() <==> forall|i: int|
            0 <= i < departures.len() ==> (#[trigger] departures[i]).cancelled,
    decreases departures.len(),
{
    reveal(Seq::filter);
    if departures.len() > 0 {
        let t = departures.drop_last();
        lemma_all_cancelled(t);
        if forall|i: int| 0 <= i < departures.len() ==> (#[trigger] departures[i]).cancelled {
            assert forall|i: int| 0 <= i < t.len() implies (#[trigger] t[i]).cancelled by {
                assert(t[i] == departures[i]);
            }
        }
        if cancelled_count(departures) == departures.len() {
            assert forall|i: int| 0 <= i < departures.len() implies (
            #[trigger] departures[i]).cancelled by {
                if i < t.len() {
                    assert(t[i] == departures[i]);
                }
            }
        }
    }
}

/// A cancelled trip does not stop its line while another departure runs and no
/// severe alert covers the line.
pub proof fn one_cancelled_trip_does_not_stop_the_line(
    departures: Seq<Departure>,
    rt_fresh: bool,
    thresholds: Thresholds,
    running: int,
)
    requires
        0 <= running < departures.len(),
        !departures[running].cancelled,
    ensures
        verdict(departures, rt_fresh, None, thresholds).0 != ServiceStatus::Stopped,
{
    lemma_all_cancelled(departures);
}

/// Only the status `Normal` comes without a reason.
pub proof fn all_but_normal_give_a_reason(
    departures: Seq<Departure>,
    rt_fresh: bool,
    severe_alert: Option<Seq<char>>,
    thresholds: Thresholds,
)
    ensures
        ({
            let v = verdict(departures, rt_fresh, severe_alert, thresholds);
            v.1 is None <==> v.0 == ServiceStatus::Normal
        }),
{
}

/// The worst delay is the delay of a departure that runs and was observed, and
/// none of those has a larger one.
pub proof fn worst_delay_is_the_largest(departures: Seq<Departure>)
    ensures
        worst_delay(departures) matches Some(w) ==> {
            &&& exists|i: int|
                0 <= i < departures.len() && (#[trigger] departures[i]).running_delay() == Some(w)
            &&& forall|i: int|
                0 <= i < departures.len() ==> match (#[trigger] departures[i]).running_delay() {
                    Some(d) => d <= w,
                    None => true,
                }
        },
        worst_delay(departures) is None ==> forall|i: int|
            0 <= i < departures.len() ==> (#[trigger] departures[i]).running_delay() is None,
    decreases departures.len(),
{
    if departures.len() > 0 {
        let t = departures.drop_last();
        worst_delay_is_the_largest(t);
        assert forall|i: int| 0 <= i < t.len() implies #[trigger] departures[i] == t[i] by {}
        assert(departures[departures.len() - 1] == departures.last());
        if let Some(w) = worst_delay(t) {
            let i = choose|i: int|
                0 <= i < t.len() && (#[trigger] t[i]).running_delay() == Some(w);
            assert(departures[i].running_delay() == Some(w));
        }
    }
}

proof fn lemma_cancelled_but_one(departures: Seq<Departure>, i: int)
    requires
        0 <= i < departures.len(),
    ensures
        cancelled_count(departures) == cancelled_count(departures.remove(i)) + (
        if departures[i].cancelled {
            1int
        } else {
            0
        }),
{
    let p = |d: Departure| d.cancelled;
    let front = departures.take(i);
    let one = seq![departures[i]];
    let back = departures.skip(i + 1);
    assert(departures =~= front + one + back);
    assert(departures.remove(i) =~= front + back);
    crate::table::lemma_filter_concat(front + one, back, p);
    crate::table::lemma_filter_concat(front, one, p);
    crate::table::lemma_filter_concat(front, back, p);
    crate::table::lemma_filter_all(one, p);
    assert(one[0] == departures[i]);
}

proof fn lemma_cancelled_in_any_order(a: Seq<Departure>, b: Seq<Departure>)
    requires
        a.to_multiset() == b.to_multiset(),
    ensures
        a.len() == b.len(),
        cancelled_count(a) == cancelled_count(b),
    decreases a.len(),
{
    a.to_multiset_ensures();
    b.to_multiset_ensures();
    if a.len() > 0 {
        let n = a.len() - 1;
        let x = a[n];
        assert(a.contains(x));
        assert(b.to_multiset().count(x) > 0);
        assert(b.contains(x));
        let j = choose|j: int| 0 <= j < b.len() && b[j] == x;
        assert(a.remove(n).to_multiset() =~= a.to_multiset().remove(x));
        assert(b.remove(j).to_multiset() =~= b.to_multiset().remove(x));
        lemma_cancelled_in_any_order(a.remove(n), b.remove(j));
        lemma_cancelled_but_one(a, n);
        lemma_cancelled_but_one(b, j);
    } else {
        assert(a =~= b);
    }
}

/// The status of a line and its reason do not depend on the order in which its
/// departures are given.
pub proof fn the_order_of_departures_does_not_count(
    a: Seq<Departure>,
    b: Seq<Departure>,
    rt_fresh: bool,
    severe_alert: Option<Seq<char>>,
    thresholds: Thresholds,
)
    requires
        a.to_multiset() == b.to_multiset(),
    ensures
        verdict(a, rt_fresh, severe_alert, thresholds) == verdict(
            b,
            rt_fresh,
            severe_alert,
            thresholds,
        ),
{
    lemma_cancelled_in_any_order(a, b);
    a.to_multiset_ensures();
    b.to_multiset_ensures();
    worst_delay_is_the_largest(a);
    worst_delay_is_the_largest(b);
    assert forall|i: int| 0 <= i < a.len() implies b.contains(#[trigger] a[i]) by {
        assert(a.contains(a[i]));
        assert(b.to_multiset().count(a[i]) > 0);
    }
    assert forall|i: int| 0 <= i < b.len() implies a.contains(#[trigger] b[i]) by {
        assert(b.contains(b[i]));
        assert(a.to_multiset().count(b[i]) > 0);
    }
    assert(worst_delay(a) == worst_delay(b));
}

/// The times of cancelled departures do not count: where two lists differ in
/// nothing else, the status and its reason are the same.
pub proof fn the_times_of_cancelled_departures_do_not_count(
    a: Seq<Departure>,
    b: Seq<Departure>,
    rt_fresh: bool,
    severe_alert: Option<Seq<char>>,
    thresholds: Thresholds,
)
    requires
        a.len() == b.len(),
        forall|i: int|
            0 <= i < a.len() ==> (#[trigger] a[i]).cancelled == b[i].cancelled && (!a[i].cancelled
                ==> a[i].scheduled == b[i].scheduled && a[i].observed == b[i].observed),
    ensures
        verdict(a, rt_fresh, severe_alert, thresholds) == verdict(
            b,
            rt_fresh,
            severe_alert,
            thresholds,
        ),
{
    lemma_cancelled_times(a, b);
}

proof fn lemma_cancelled_times(a: Seq<Departure>, b: Seq<Departure>)
    requires
        a.len() == b.len(),
        forall|i: int|
            0 <= i < a.len() ==> (#[trigger] a[i]).cancelled == b[i].cancelled && (!a[i].cancelled
                ==> a[i].scheduled == b[i].scheduled && a[i].observed == b[i].observed),
    ensures
        cancelled_count(a) == cancelled_count(b),
        worst_delay(a) == worst_delay(b),
    decreases a.len(),
{
    reveal(Seq::filter);
    if a.len() > 0 {
        let c = a.drop_last();
        let d = b.drop_last();
        assert forall|i: int| 0 <= i < c.len() implies (#[trigger] c[i]).cancelled
            == d[i].cancelled && (!c[i].cancelled ==> c[i].scheduled == d[i].scheduled
            && c[i].observed == d[i].observed) by {
            assert(c[i] == a[i] && d[i] == b[i]);
        }
        lemma_cancelled_times(c, d);
        assert(a[a.len() - 1] == a.last() && b[b.len() - 1] == b.last());
        assert(a.last().running_delay() == b.last().running_delay());
    }
}

} // verus!
