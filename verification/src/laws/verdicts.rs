//! Laws of the verdict on a line: what each status says of the departures.

use crate::domain::{
    advice, cancelled_count, evaluate, evidence, worst_delay, Departure, Evidence, EvidenceKind,
    Line, LineStatus, NetworkContext, ServiceStatus, Stop, StopStatus, Thresholds,
};
use crate::state::{build_stop_status, gravest, make_line_status, worst_status};
use crate::text::int_text;
use vstd::prelude::*;

verus! {

/// The places of the departures that do not run.
pub open spec fn places_cancelled(departures: Seq<Departure>) -> Set<int> {
    Set::new(|i: int| 0 <= i < departures.len() && departures[i].cancelled)
}

/// Whether a departure runs and was seen at least `secs` whole seconds late.
/// Parts of a second do not count: towards zero, 59.9 seconds are 59 and half a
/// second early is on time.
pub open spec fn is_late_by(d: Departure, secs: int) -> bool {
    &&& !d.cancelled
    &&& d.observed matches Some(o) && (if secs > 0 {
        o - d.scheduled >= secs * 1000
    } else {
        o - d.scheduled > (secs - 1) * 1000
    })
}

/// Whether a departure runs and was seen.
pub open spec fn is_seen(d: Departure) -> bool {
    !d.cancelled && d.observed is Some
}

/// Whether the line counts as late: a departure that runs is late by the
/// threshold or, where none that runs was seen, the threshold asks for nothing.
pub open spec fn is_late_line(departures: Seq<Departure>, late_secs: int) -> bool {
    ||| exists|i: int| 0 <= i < departures.len() && is_late_by(#[trigger] departures[i], late_secs)
    ||| (late_secs <= 0 && forall|i: int|
        0 <= i < departures.len() ==> !is_seen(#[trigger] departures[i]))
}

proof fn lemma_places(departures: Seq<Departure>)
    ensures
        places_cancelled(departures).finite(),
        places_cancelled(departures).len() == cancelled_count(departures),
    decreases departures.len(),
{
    reveal(Seq::filter);
    let all = places_cancelled(departures);
    if departures.len() == 0 {
        assert(all =~= Set::<int>::empty());
    } else {
        let n = departures.len() - 1;
        let t = departures.drop_last();
        let before = places_cancelled(t);
        lemma_places(t);
        assert forall|i: int| 0 <= i < n implies t[i] == #[trigger] departures[i] by {}
        if departures.last().cancelled {
            assert(all =~= before.insert(n));
            assert(!before.contains(n));
        } else {
            assert(all =~= before);
        }
    }
}

proof fn lemma_some_runs(departures: Seq<Departure>, running: int)
    requires
        0 <= running < departures.len(),
        !departures[running].cancelled,
    ensures
        cancelled_count(departures) < departures.len(),
{
    lemma_places(departures);
    let all = vstd::set_lib::set_int_range(0, departures.len() as int);
    vstd::set_lib::lemma_int_range(0, departures.len() as int);
    assert(places_cancelled(departures).subset_of(all.remove(running)));
    vstd::set_lib::lemma_len_subset(places_cancelled(departures), all.remove(running));
}

proof fn lemma_late(departures: Seq<Departure>, secs: int)
    ensures
        (match worst_delay(departures) {
            Some(w) => w,
            None => 0,
        }) >= secs <==> is_late_line(departures, secs),
{
    crate::domain::worst_delay_is_the_largest(departures);
    match worst_delay(departures) {
        Some(w) => {
            let k = choose|k: int|
                0 <= k < departures.len() && (#[trigger] departures[k]).running_delay() == Some(w);
            assert(is_seen(departures[k]));
            if w >= secs {
                assert(is_late_by(departures[k], secs));
            }
            if exists|i: int|
                0 <= i < departures.len() && is_late_by(#[trigger] departures[i], secs) {
                let i = choose|i: int|
                    0 <= i < departures.len() && is_late_by(#[trigger] departures[i], secs);
                assert(departures[i].running_delay() is Some);
            }
        },
        None => {
            assert forall|i: int| 0 <= i < departures.len() implies !is_seen(
                #[trigger] departures[i],
            ) by {
                assert(departures[i].running_delay() is None);
            }
        },
    }
}

/// On fresh data, where some departure runs and no severe alert stands: the
/// service is reduced exactly when the share of cancelled departures reaches the
/// threshold, whatever the delays; it is perturbed exactly when the share stays
/// below and a departure that runs is late by the threshold; otherwise it is
/// normal.
pub proof fn the_share_decides_before_the_delay(
    departures: &[Departure],
    thresholds: Thresholds,
    running: int,
    r: (ServiceStatus, Option<String>),
)
    requires
        0 <= running < departures@.len(),
        !departures@[running].cancelled,
        thresholds.reduced_cancelled_ratio.den != 0,
        call_ensures(evaluate, (departures, true, None, thresholds), r),
    ensures
        ({
            let cancelled = places_cancelled(departures@).len();
            let total = departures@.len();
            let share = thresholds.reduced_cancelled_ratio;
            let reached = if share.den > 0 {
                cancelled * share.den >= share.num * total
            } else {
                cancelled * share.den <= share.num * total
            };
            let late = is_late_line(departures@, thresholds.late_secs as int);
            &&& r.0 == ServiceStatus::Reduced <==> reached
            &&& r.0 == ServiceStatus::Perturbed <==> !reached && late
            &&& r.0 == ServiceStatus::Normal <==> !reached && !late
        }),
{
    lemma_places(departures@);
    lemma_some_runs(departures@, running);
    lemma_late(departures@, thresholds.late_secs as int);
}

/// Delays never make a reduced service anything else, nor another one reduced:
/// where two lists have the same departures cancelled, both are reduced or none
/// is.
pub proof fn delays_do_not_reduce(
    a: &[Departure],
    b: &[Departure],
    rt_fresh: bool,
    severe_alert: Option<&str>,
    thresholds: Thresholds,
    x: (ServiceStatus, Option<String>),
    y: (ServiceStatus, Option<String>),
)
    requires
        a@.len() == b@.len(),
        forall|i: int| 0 <= i < a@.len() ==> (#[trigger] a@[i]).cancelled == b@[i].cancelled,
        call_ensures(evaluate, (a, rt_fresh, severe_alert, thresholds), x),
        call_ensures(evaluate, (b, rt_fresh, severe_alert, thresholds), y),
    ensures
        x.0 == ServiceStatus::Reduced <==> y.0 == ServiceStatus::Reduced,
        x.0 == ServiceStatus::Stopped <==> y.0 == ServiceStatus::Stopped,
        x.0 == ServiceStatus::Unknown <==> y.0 == ServiceStatus::Unknown,
{
    lemma_places(a@);
    lemma_places(b@);
    assert forall|i: int| 0 <= i < a@.len() implies a@[i].cancelled == (
    #[trigger] b@[i]).cancelled by {
        assert(a@[i].cancelled == b@[i].cancelled);
    }
    assert(places_cancelled(a@) =~= places_cancelled(b@));
}

/// A line without departures is stopped; with departures and without fresh data
/// it is unknown, whatever else is known; on fresh data it is stopped under a
/// severe alert, whose message is the reason, and where every departure is
/// cancelled.
pub proof fn a_line_is_stopped_or_unknown_for_a_reason(
    departures: &[Departure],
    rt_fresh: bool,
    severe_alert: Option<&str>,
    thresholds: Thresholds,
    r: (ServiceStatus, Option<String>),
)
    requires
        call_ensures(evaluate, (departures, rt_fresh, severe_alert, thresholds), r),
    ensures
        departures@.len() == 0 ==> r.0 == ServiceStatus::Stopped && (r.1 matches Some(t) && t@
            == "Aucun passage prévu à cet arrêt"@),
        departures@.len() > 0 && !rt_fresh ==> r.0 == ServiceStatus::Unknown && (
        r.1 matches Some(t) && t@ == "Données temps réel indisponibles ou trop anciennes"@),
        departures@.len() > 0 && rt_fresh ==> match severe_alert {
            Some(m) => r.0 == ServiceStatus::Stopped && (r.1 matches Some(t) && t@ == m@),
            None => (forall|i: int|
                0 <= i < departures@.len() ==> (#[trigger] departures@[i]).cancelled) ==> r.0
                == ServiceStatus::Stopped && (r.1 matches Some(t) && t@
                == "Tous les passages sont annulés"@),
        },
        departures@.len() > 0 && rt_fresh && severe_alert is None && (exists|i: int|
            0 <= i < departures@.len() && !(#[trigger] departures@[i]).cancelled) ==> r.0
            == ServiceStatus::Reduced || r.0 == ServiceStatus::Perturbed || r.0
            == ServiceStatus::Normal,
{
    crate::domain::a_line_is_stopped_only_when(departures@, rt_fresh, None, thresholds);
    if exists|i: int| 0 <= i < departures@.len() && !(#[trigger] departures@[i]).cancelled {
        let i = choose|i: int|
            0 <= i < departures@.len() && !(#[trigger] departures@[i]).cancelled;
        lemma_some_runs(departures@, i);
    }
    if departures@.len() > 0 && (forall|i: int|
        0 <= i < departures@.len() ==> (#[trigger] departures@[i]).cancelled) {
        lemma_places(departures@);
        let all = vstd::set_lib::set_int_range(0, departures@.len() as int);
        vstd::set_lib::lemma_int_range(0, departures@.len() as int);
        assert(places_cancelled(departures@) =~= all);
    }
}

/// The delay of a departure is what lies between the planned and the observed
/// instant, in whole seconds towards zero, positive when late; without an
/// observed instant there is none.
pub proof fn a_delay_is_what_lies_between(d: &Departure, delay: Option<i64>)
    requires
        call_ensures(Departure::delay_secs, (d,), delay),
    ensures
        delay is Some <==> d.observed is Some,
        delay is Some ==> {
            let ms = d.observed->0 - d.scheduled;
            let secs = delay->0;
            &&& ms >= 0 ==> secs >= 0 && secs * 1000 <= ms < secs * 1000 + 1000
            &&& ms <= 0 ==> secs <= 0 && secs * 1000 - 1000 < ms <= secs * 1000
        },
{
}

/// The reason of a reduced service tells the share of cancelled departures in
/// percent, off by half a percent at most. A half goes up, but for 14.5, 28.5, 56.5
/// and 57.5, which go down.
pub proof fn the_reason_tells_the_share(
    departures: &[Departure],
    thresholds: Thresholds,
    r: (ServiceStatus, Option<String>),
) -> (percent: int)
    requires
        call_ensures(evaluate, (departures, true, None, thresholds), r),
        r.0 == ServiceStatus::Reduced,
    ensures
        r.1 matches Some(t) && t@ == int_text(percent) + " % des passages annulés"@,
        -departures@.len() <= 2 * (percent * departures@.len() - 100 * places_cancelled(
            departures@,
        ).len()) <= departures@.len(),
        2 * (percent * departures@.len() - 100 * places_cancelled(departures@).len())
            == -departures@.len() ==> percent == 14 || percent == 28 || percent == 56 || percent
            == 57,
        2 * (percent * departures@.len() - 100 * places_cancelled(departures@).len())
            == departures@.len() ==> percent != 15 && percent != 29 && percent != 57 && percent
            != 58,
{
    lemma_places(departures@);
    let c = cancelled_count(departures@) as int;
    let t = departures@.len() as int;
    let p = crate::domain::percent(c, t);
    lemma_halves(c, t);
    assert(-t <= 2 * (p * t - 100 * c) <= t) by (nonlinear_arith)
        requires
            t > 0,
            c >= 0,
            p == (200 * c - t) / (2 * t) && (200 * c == 29 * t || 200 * c == 57 * t || 200 * c
                == 113 * t || 200 * c == 115 * t) || p == (200 * c + t) / (2 * t),
    {
        let up = (200 * c + t) / (2 * t);
        assert(up * (2 * t) <= 200 * c + t < up * (2 * t) + 2 * t);
        let down = (200 * c - t) / (2 * t);
        assert(down * (2 * t) <= 200 * c - t < down * (2 * t) + 2 * t);
        if 200 * c == 29 * t {
            assert(down == 14) by {
                assert(200 * c - t == 14 * (2 * t));
            }
        }
        if 200 * c == 57 * t {
            assert(200 * c - t == 28 * (2 * t));
        }
        if 200 * c == 113 * t {
            assert(200 * c - t == 56 * (2 * t));
        }
        if 200 * c == 115 * t {
            assert(200 * c - t == 57 * (2 * t));
        }
    }
    p
}

proof fn lemma_halves(c: int, t: int)
    requires
        t > 0,
        c >= 0,
    ensures
        ({
            let p = crate::domain::percent(c, t);
            &&& 2 * (p * t - 100 * c) == -t ==> p == 14 || p == 28 || p == 56 || p == 57
            &&& 2 * (p * t - 100 * c) == t ==> p != 15 && p != 29 && p != 57 && p != 58
        }),
{
    let p = crate::domain::percent(c, t);
    if crate::domain::is_low_half(c, t) {
        let n: int = if 200 * c == 29 * t {
            14
        } else if 200 * c == 57 * t {
            28
        } else if 200 * c == 113 * t {
            56
        } else {
            57
        };
        assert(200 * c - t == n * (2 * t)) by (nonlinear_arith)
            requires
                200 * c == 29 * t && n == 14 || 200 * c == 57 * t && n == 28 || 200 * c == 113 * t
                    && n == 56 || 200 * c == 115 * t && n == 57,
        ;
        assert((n * (2 * t)) / (2 * t) == n) by (nonlinear_arith)
            requires
                t > 0,
        ;
        assert(p == n);
        assert(2 * (p * t - 100 * c) != t) by (nonlinear_arith)
            requires
                t > 0,
                200 * c - t == p * (2 * t),
        ;
    } else {
        assert(p == (200 * c + t) / (2 * t));
        assert(2 * (p * t - 100 * c) != -t) by (nonlinear_arith)
            requires
                t > 0,
                p == (200 * c + t) / (2 * t),
        {
            assert(200 * c + t < p * (2 * t) + 2 * t);
        }
        if 2 * (p * t - 100 * c) == t {
            assert(p != 15 && p != 29 && p != 57 && p != 58) by (nonlinear_arith)
                requires
                    2 * (p * t - 100 * c) == t,
                    200 * c != 29 * t,
                    200 * c != 57 * t,
                    200 * c != 113 * t,
                    200 * c != 115 * t,
            ;
        }
    }
}

/// The reason of a perturbed service tells the largest delay of a departure that
/// runs, in whole minutes.
pub proof fn the_reason_tells_the_delay(
    departures: &[Departure],
    thresholds: Thresholds,
    r: (ServiceStatus, Option<String>),
) -> (minutes: int)
    requires
        thresholds.late_secs > 0,
        call_ensures(evaluate, (departures, true, None, thresholds), r),
        r.0 == ServiceStatus::Perturbed,
    ensures
        r.1 matches Some(t) && t@ == "Retard jusqu'à "@ + int_text(minutes) + " min"@,
        forall|i: int|
            0 <= i < departures@.len() ==> !is_late_by(
                #[trigger] departures@[i],
                60 * minutes + 60,
            ),
        minutes > 0 ==> exists|i: int|
            0 <= i < departures@.len() && is_late_by(#[trigger] departures@[i], 60 * minutes),
        minutes >= 0,
{
    crate::domain::worst_delay_is_the_largest(departures@);
    let w = worst_delay(departures@)->0;
    let k = choose|k: int|
        0 <= k < departures@.len() && (#[trigger] departures@[k]).running_delay() == Some(w);
    let minutes = crate::domain::whole_minutes(w);
    assert forall|i: int| 0 <= i < departures@.len() implies !is_late_by(
        #[trigger] departures@[i],
        60 * minutes + 60,
    ) by {
        if is_late_by(departures@[i], 60 * minutes + 60) {
            assert(departures@[i].running_delay() is Some);
        }
    }
    if minutes > 0 {
        assert(is_late_by(departures@[k], 60 * minutes));
    }
    minutes
}

/// The evidence names, in their order, the trips of the departures that do not
/// run, and no other: each such departure has its piece, behind those of the
/// departures before it.
pub proof fn the_evidence_names_each_cancelled_trip(
    departures: &[Departure],
    r: Vec<Evidence>,
    place: int,
)
    requires
        call_ensures(evidence, (departures,), r),
        0 <= place < departures@.len(),
    ensures
        r@.len() == places_cancelled(departures@).len(),
        departures@[place].cancelled ==> {
            let at = places_cancelled(departures@.take(place)).len() as int;
            0 <= at < r@.len() && r@[at].trip_id == departures@[place].trip_id && r@[at].kind
                == EvidenceKind::Cancelled
        },
{
    let p = |d: Departure| d.cancelled;
    lemma_places(departures@);
    lemma_places(departures@.take(place));
    let front = departures@.take(place);
    let back = departures@.skip(place);
    assert(departures@ =~= front + back);
    crate::table::lemma_filter_concat(front, back, p);
    if departures@[place].cancelled {
        assert(back[0] == departures@[place]);
        crate::table::lemma_first_of_filter(back, p, 0);
        let at = front.filter(p).len() as int;
        assert(departures@.filter(p)[at] == back.filter(p)[0]);
    }
}

/// Each status has its advice.
pub proof fn each_status_has_its_advice(status: ServiceStatus, said: &'static str)
    requires
        call_ensures(advice, (status,), said),
    ensures
        match status {
            ServiceStatus::Normal => said@ == "Vous pouvez compter sur ce bus."@,
            ServiceStatus::Perturbed => said@ == "Retard en cours : prévoyez plus large."@,
            ServiceStatus::Reduced => said@ == "Service fortement réduit : prévoyez un plan B."@,
            ServiceStatus::Stopped => said@ == "Service à l'arrêt : cherchez une alternative."@,
            ServiceStatus::Unknown => said@ == "Données manquantes : vérifiez un arrêt voisin."@,
        },
{
}

/// Whether some line has a status.
pub open spec fn some_line_is(lines: Seq<LineStatus>, status: ServiceStatus) -> bool {
    exists|i: int| 0 <= i < lines.len() && (#[trigger] lines[i]).status == status
}

/// Of several lines the worst counts: one that is stopped, else one that is
/// reduced, else one that is perturbed, else one that is unknown. Only where all
/// are normal is the whole normal; without lines it is unknown.
pub proof fn the_worst_line_counts(lines: &[LineStatus], worst: ServiceStatus)
    requires
        call_ensures(worst_status, (lines,), worst),
    ensures
        lines@.len() == 0 ==> worst == ServiceStatus::Unknown,
        lines@.len() > 0 ==> worst == (if some_line_is(lines@, ServiceStatus::Stopped) {
            ServiceStatus::Stopped
        } else if some_line_is(lines@, ServiceStatus::Reduced) {
            ServiceStatus::Reduced
        } else if some_line_is(lines@, ServiceStatus::Perturbed) {
            ServiceStatus::Perturbed
        } else if some_line_is(lines@, ServiceStatus::Unknown) {
            ServiceStatus::Unknown
        } else {
            ServiceStatus::Normal
        }),
{
    lemma_worst(lines@);
}

pub(crate) proof fn lemma_worst(lines: Seq<LineStatus>)
    ensures
        lines.len() == 0 ==> gravest(lines) == ServiceStatus::Unknown,
        lines.len() > 0 ==> gravest(lines) == (if some_line_is(lines, ServiceStatus::Stopped) {
            ServiceStatus::Stopped
        } else if some_line_is(lines, ServiceStatus::Reduced) {
            ServiceStatus::Reduced
        } else if some_line_is(lines, ServiceStatus::Perturbed) {
            ServiceStatus::Perturbed
        } else if some_line_is(lines, ServiceStatus::Unknown) {
            ServiceStatus::Unknown
        } else {
            ServiceStatus::Normal
        }),
{
    if lines.len() > 0 {
        crate::state::no_line_is_graver(lines);
        let k = choose|k: int| 0 <= k < lines.len() && (#[trigger] lines[k]).status == gravest(
            lines,
        );
        assert(some_line_is(lines, gravest(lines)));
    }
}

/// A line is judged by its own departures: status and reason are those of the
/// evaluation, and the evidence is that of the departures.
pub proof fn a_line_is_judged_by_its_departures(
    line: &Line,
    departures: Vec<Departure>,
    rt_fresh: bool,
    severe_alert: Option<&str>,
    thresholds: Thresholds,
    r: LineStatus,
    judged: (ServiceStatus, Option<String>),
    shown: Vec<Evidence>,
    slice: &[Departure],
)
    requires
        slice@ == departures@,
        call_ensures(
            make_line_status,
            (line, departures, rt_fresh, severe_alert, thresholds),
            r,
        ),
        call_ensures(evaluate, (slice, rt_fresh, severe_alert, thresholds), judged),
        call_ensures(evidence, (slice,), shown),
    ensures
        r.line == *line,
        r.departures@ == departures@,
        r.status == judged.0,
        r.reason is Some <==> judged.1 is Some,
        r.reason is Some ==> r.reason->0@ == judged.1->0@,
        r.evidence@ == shown@,
{
}

/// The answer for a stop carries what it is made of, and its advice is that of
/// the worst line.
pub proof fn an_answer_advises_by_its_worst_line(
    stop: Stop,
    lines: Vec<LineStatus>,
    last_updated: Option<i64>,
    feed_age_secs: Option<u64>,
    network: Option<NetworkContext>,
    r: StopStatus,
    slice: &[LineStatus],
    worst: ServiceStatus,
    said: &'static str,
)
    requires
        slice@ == lines@,
        call_ensures(
            build_stop_status,
            (stop, lines, last_updated, feed_age_secs, network),
            r,
        ),
        call_ensures(worst_status, (slice,), worst),
        call_ensures(advice, (worst,), said),
    ensures
        r.stop == stop,
        r.lines@ == lines@,
        r.last_updated == last_updated,
        r.feed_age_secs == feed_age_secs,
        r.network == network,
        r.advice@ == said@,
{
}

} // verus!
