//! A small network held in memory, for when no real timetable is loaded.

use crate::domain::{
    advice, advice_text, evaluate, evidence, evidence_in, is_within, str_of, text_of, verdict,
    within, Degrees, Departure, Line, LineStatus, NetworkContext, ServiceStatus, Stop, StopStatus,
    Thresholds, TransportMode, INFINITY, NEGATIVE_ZERO,
};
use crate::ratio::Ratio;
use crate::text::{
    ascii_lowered, chars_of, contains, has_text, is_capital, is_space, lower_ascii, lowercase,
    push_char, same_text, to_lowercase, trim, trim_start, trimmed,
};
use vstd::prelude::*;
use vstd::utf8::is_ascii_chars;

verus! {

/// How grave a status is: the lower, the graver.
pub open spec fn rank_of(s: ServiceStatus) -> int {
    match s {
        ServiceStatus::Stopped => 0,
        ServiceStatus::Reduced => 1,
        ServiceStatus::Perturbed => 2,
        ServiceStatus::Unknown => 3,
        ServiceStatus::Normal => 4,
    }
}

/// How grave a status is: the lower, the graver.
pub fn severity_rank(s: ServiceStatus) -> (r: u8)
    ensures
        r == rank_of(s),
{
    match s {
        ServiceStatus::Stopped => 0,
        ServiceStatus::Reduced => 1,
        ServiceStatus::Perturbed => 2,
        ServiceStatus::Unknown => 3,
        ServiceStatus::Normal => 4,
    }
}

/// The gravest status among some lines; `Unknown` where there is no line.
pub open spec fn gravest(lines: Seq<LineStatus>) -> ServiceStatus
    decreases lines.len(),
{
    if lines.len() == 0 {
        ServiceStatus::Unknown
    } else if lines.len() == 1 {
        lines[0].status
    } else {
        let before = gravest(lines.drop_last());
        if rank_of(lines.last().status) < rank_of(before) {
            lines.last().status
        } else {
            before
        }
    }
}

/// The gravest status among some lines; `Unknown` where there is no line.
pub fn worst_status(lines: &[LineStatus]) -> (r: ServiceStatus)
    ensures
        r == gravest(lines@),
{
    if lines.len() == 0 {
        return ServiceStatus::Unknown;
    }
    let mut worst = lines[0].status;
    let mut i: usize = 1;
    assert(lines@.take(1)[0] == lines@[0]);
    while i < lines.len()
        invariant
            1 <= i <= lines@.len(),
            worst == gravest(lines@.take(i as int)),
        decreases lines@.len() - i,
    {
        proof {
            assert(lines@.take(i + 1).drop_last() =~= lines@.take(i as int));
            assert(lines@.take(i + 1).last() == lines@[i as int]);
        }
        let status = lines[i].status;
        if severity_rank(status) < severity_rank(worst) {
            worst = status;
        }
        i = i + 1;
    }
    assert(lines@.take(lines@.len() as int) =~= lines@);
    worst
}

/// The gravest status is that of a line, and no line has a graver one.
pub proof fn no_line_is_graver(lines: Seq<LineStatus>)
    requires
        lines.len() > 0,
    ensures
        exists|i: int| 0 <= i < lines.len() && (#[trigger] lines[i]).status == gravest(lines),
        forall|i: int|
            0 <= i < lines.len() ==> rank_of(gravest(lines)) <= rank_of(
                (#[trigger] lines[i]).status,
            ),
    decreases lines.len(),
{
    if lines.len() == 1 {
        assert(lines[0].status == gravest(lines));
    } else {
        let t = lines.drop_last();
        no_line_is_graver(t);
        let k = choose|k: int| 0 <= k < t.len() && (#[trigger] t[k]).status == gravest(t);
        assert(lines[k] == t[k]);
        assert(lines[lines.len() - 1] == lines.last());
        assert forall|i: int| 0 <= i < lines.len() implies rank_of(gravest(lines)) <= rank_of(
            (#[trigger] lines[i]).status,
        ) by {
            if i < t.len() {
                assert(t[i] == lines[i]);
            }
        }
    }
}

/// Whether a line's status is the verdict on its departures.
pub open spec fn is_judged(
    l: LineStatus,
    rt_fresh: bool,
    severe_alert: Option<Seq<char>>,
    thresholds: Thresholds,
) -> bool {
    &&& (l.status, text_of(l.reason)) == verdict(
        l.departures@,
        rt_fresh,
        severe_alert,
        thresholds,
    )
    &&& l.evidence@ == evidence_in(l.departures@)
}

/// A line at a stop with the verdict on its departures.
pub fn make_line_status(
    line: &Line,
    departures: Vec<Departure>,
    rt_fresh: bool,
    severe_alert: Option<&str>,
    thresholds: Thresholds,
) -> (r: LineStatus)
    requires
        thresholds.wf(),
    ensures
        r.line == *line,
        r.departures == departures,
        is_judged(r, rt_fresh, str_of(severe_alert), thresholds),
{
    let (status, reason) = evaluate(&departures, rt_fresh, severe_alert, thresholds);
    let shown = evidence(&departures);
    LineStatus { line: line.clone(), status, departures, reason, evidence: shown }
}

/// The answer for a stop: the advice goes by the line that is worst off.
pub fn build_stop_status(
    stop: Stop,
    lines: Vec<LineStatus>,
    last_updated: Option<i64>,
    feed_age_secs: Option<u64>,
    network: Option<NetworkContext>,
) -> (r: StopStatus)
    ensures
        r.stop == stop,
        r.lines == lines,
        r.last_updated == last_updated,
        r.feed_age_secs == feed_age_secs,
        r.advice@ == advice_text(gravest(lines@)),
        r.network == network,
{
    let worst = worst_status(&lines);
    StopStatus {
        stop,
        lines,
        last_updated,
        feed_age_secs,
        advice: advice(worst).to_string(),
        network,
    }
}

/// A small letter without its French accent.
pub open spec fn unaccented(c: char) -> char {
    if c == 'à' || c == 'â' || c == 'ä' || c == 'á' || c == 'ã' {
        'a'
    } else if c == 'é' || c == 'è' || c == 'ê' || c == 'ë' {
        'e'
    } else if c == 'î' || c == 'ï' || c == 'í' {
        'i'
    } else if c == 'ô' || c == 'ö' || c == 'ó' || c == 'õ' {
        'o'
    } else if c == 'û' || c == 'ü' || c == 'ù' || c == 'ú' {
        'u'
    } else if c == 'ç' {
        'c'
    } else if c == 'ÿ' {
        'y'
    } else {
        c
    }
}

fn without_accent(c: char) -> (r: char)
    ensures
        r == unaccented(c),
{
    match c {
        'à' | 'â' | 'ä' | 'á' | 'ã' => 'a',
        'é' | 'è' | 'ê' | 'ë' => 'e',
        'î' | 'ï' | 'í' => 'i',
        'ô' | 'ö' | 'ó' | 'õ' => 'o',
        'û' | 'ü' | 'ù' | 'ú' => 'u',
        'ç' => 'c',
        'ÿ' => 'y',
        other => other,
    }
}

/// A text of small letters without French accents.
pub open spec fn unaccented_text(s: Seq<char>) -> Seq<char> {
    s.map_values(|c: char| unaccented(c))
}

/// Takes the French accents off a text of small letters.
pub fn unaccent(s: &str) -> (r: String)
    ensures
        r@ == unaccented_text(s@),
{
    let chars = chars_of(s);
    let mut out = String::new();
    let mut i: usize = 0;
    assert(out@ =~= unaccented_text(s@).take(0));
    while i < chars.len()
        invariant
            chars@ == s@,
            0 <= i <= chars@.len(),
            out@ == unaccented_text(s@).take(i as int),
        decreases chars@.len() - i,
    {
        push_char(&mut out, without_accent(chars[i]));
        assert(out@ =~= unaccented_text(s@).take(i + 1));
        i = i + 1;
    }
    assert(unaccented_text(s@).take(s@.len() as int) =~= unaccented_text(s@));
    out
}

/// A text in the form in which names are compared: trimmed, in lower case and
/// without French accents.
pub open spec fn folded(s: Seq<char>) -> Seq<char> {
    unaccented_text(lowercase(trimmed(s)))
}

/// A text in the form in which names are compared: trimmed, in lower case and
/// without French accents. A text of ASCII characters only loses its outer white
/// space and its capitals, and folding it again changes nothing.
pub fn fold(s: &str) -> (r: String)
    ensures
        r@ == folded(s@),
        forall|i: int|
            0 <= i < r@.len() ==> !is_capital(#[trigger] r@[i]) && !is_accented(r@[i]),
        is_ascii_chars(trimmed(s@)) ==> r@ == ascii_lowered(trimmed(s@)) && folded(r@) == r@
            && trimmed(r@) == r@,
{
    let lower = to_lowercase(&trim(s));
    let r = unaccent(&lower);
    proof {
        assert forall|i: int| 0 <= i < r@.len() implies !is_capital(#[trigger] r@[i])
            && !is_accented(r@[i]) by {
            assert(!is_capital(lower@[i]));
        }
        if is_ascii_chars(trimmed(s@)) {
            let t = trimmed(s@);
            crate::text::a_trimmed_text_has_no_outer_blanks(s@);
            assert forall|i: int| 0 <= i < t.len() implies r@[i] == lower_ascii(#[trigger] t[i])
                && is_space(r@[i]) == is_space(t[i]) by {
                assert('\0' <= t[i] <= '\u{7f}');
                assert(lower@[i] == lower_ascii(t[i]));
            }
            assert(r@ =~= lower@);
            lemma_stays_trimmed(t, r@);
        }
    }
    r
}

/// Whether `c` is a small letter with a French accent.
pub open spec fn is_accented(c: char) -> bool {
    unaccented(c) != c
}

proof fn lemma_stays_trimmed(s: Seq<char>, t: Seq<char>)
    requires
        trimmed(s) == s,
        s.len() == t.len(),
        forall|i: int| 0 <= i < s.len() ==> is_space(#[trigger] s[i]) == is_space(t[i]),
    ensures
        trimmed(t) == t,
{
    crate::text::a_trimmed_text_has_no_outer_blanks(s);
    if t.len() > 0 {
        assert(is_space(s[0]) == is_space(t[0]));
        assert(is_space(s[s.len() - 1]) == is_space(t[t.len() - 1]));
        assert(trim_start(t) == t);
    }
}

/// Where lower-casing brings up no white space at the ends of a text, and leaves
/// the folded text as it is, folding twice is folding once, and the folded text
/// neither begins nor ends with white space.
pub proof fn folding_settles_where_lowercase_does(s: Seq<char>)
    requires
        trimmed(lowercase(trimmed(s))) == lowercase(trimmed(s)),
        lowercase(folded(s)) == folded(s),
    ensures
        folded(folded(s)) == folded(s),
        trimmed(folded(s)) == folded(s),
        folded(s).len() > 0 ==> !is_space(folded(s)[0]) && !is_space(folded(s).last()),
{
    let low = lowercase(trimmed(s));
    let f = folded(s);
    assert forall|i: int| 0 <= i < low.len() implies is_space(#[trigger] low[i]) == is_space(
        f[i],
    ) by {
        assert(f[i] == unaccented(low[i]));
    }
    lemma_stays_trimmed(low, f);
    crate::text::a_trimmed_text_has_no_outer_blanks(f);
    accents_come_off_once(low);
}

/// The small network: its stops, and what is known of each, under its key.
pub struct Repo {
    pub stops: Vec<Stop>,
    pub statuses: Vec<(String, StopStatus)>,
    pub thresholds: Thresholds,
    pub feed_age_secs: Option<u64>,
}

impl Repo {
    /// Whether no stop has two statuses.
    pub open spec fn wf(self) -> bool {
        forall|i: int, j: int|
            0 <= i < j < self.statuses@.len() ==> (#[trigger] self.statuses@[i]).0@ != (
            #[trigger] self.statuses@[j]).0@
    }
}

/// The place of the first status under a key.
pub open spec fn status_place(statuses: Seq<(String, StopStatus)>, stop_id: Seq<char>) -> Option<int>
    decreases statuses.len(),
{
    if statuses.len() == 0 {
        None
    } else {
        match status_place(statuses.drop_last(), stop_id) {
            Some(i) => Some(i),
            None => if statuses.last().0@ == stop_id {
                Some(statuses.len() - 1)
            } else {
                None
            },
        }
    }
}

proof fn lemma_status_place_stays(
    statuses: Seq<(String, StopStatus)>,
    stop_id: Seq<char>,
    n: int,
)
    requires
        0 <= n <= statuses.len(),
        status_place(statuses.take(n), stop_id) is Some,
    ensures
        status_place(statuses, stop_id) == status_place(statuses.take(n), stop_id),
    decreases statuses.len(),
{
    if n == statuses.len() {
        assert(statuses.take(n) =~= statuses);
    } else {
        assert(statuses.drop_last().take(n) =~= statuses.take(n));
        lemma_status_place_stays(statuses.drop_last(), stop_id, n);
    }
}

/// The place of the nearest of some distances within a radius: the first, where
/// several are nearest.
pub open spec fn nearest_place(metres: Seq<u64>, radius: u64) -> Option<int>
    decreases metres.len(),
{
    if metres.len() == 0 {
        None
    } else {
        let before = nearest_place(metres.drop_last(), radius);
        if !within(metres.last(), radius) {
            before
        } else {
            match before {
                Some(i) => if metres.last() < metres[i] {
                    Some(metres.len() - 1)
                } else {
                    Some(i)
                },
                None => Some(metres.len() - 1),
            }
        }
    }
}

/// The nearest place is within the radius, and no place is nearer; there is
/// none only where no place is within the radius.
pub proof fn no_stop_is_nearer(metres: Seq<u64>, radius: u64)
    ensures
        nearest_place(metres, radius) matches Some(i) ==> {
            &&& 0 <= i < metres.len()
            &&& within(metres[i], radius)
            &&& forall|k: int| 0 <= k < metres.len() ==> metres[i] <= #[trigger] metres[k]
        },
        nearest_place(metres, radius) is None ==> forall|k: int|
            0 <= k < metres.len() ==> !within(#[trigger] metres[k], radius),
    decreases metres.len(),
{
    if metres.len() > 0 {
        let t = metres.drop_last();
        no_stop_is_nearer(t, radius);
        assert forall|k: int| 0 <= k < t.len() implies #[trigger] metres[k] == t[k] by {}
    }
}

/// Nothing is near within a radius that is negative or no number.
pub proof fn no_place_within_no_radius(metres: Seq<u64>, radius: u64)
    requires
        radius > INFINITY,
        radius != NEGATIVE_ZERO,
    ensures
        nearest_place(metres, radius) is None,
    decreases metres.len(),
{
    if metres.len() > 0 {
        no_place_within_no_radius(metres.drop_last(), radius);
    }
}

impl Repo {
    /// Whether a stop's name holds the question, whatever the case and the
    /// accents of either.
    pub open spec fn name_matches(s: Stop, q: Seq<char>) -> bool {
        has_text(folded(s.name@), folded(q))
    }

    /// Looks stops up by name, whatever the case and the accents. An empty
    /// question finds nothing.
    pub fn search(&self, q: &str) -> (r: Vec<Stop>)
        ensures
            r@ == (if folded(q@).len() == 0 {
                Seq::<Stop>::empty()
            } else {
                self.stops@.filter(|s: Stop| Self::name_matches(s, q@))
            }),
            trimmed(q@).len() == 0 ==> r@.len() == 0,
    {
        let question = fold(q);
        let mut out: Vec<Stop> = Vec::new();
        if question.as_str().is_empty() {
            assert(out@ =~= Seq::<Stop>::empty());
            return out;
        }
        let ghost p = |s: Stop| Self::name_matches(s, q@);
        let mut i: usize = 0;
        proof {
            reveal(Seq::filter);
            assert(self.stops@.take(0) =~= Seq::<Stop>::empty());
        }
        while i < self.stops.len()
            invariant
                0 <= i <= self.stops@.len(),
                question@ == folded(q@),
                p == (|s: Stop| Self::name_matches(s, q@)),
                out@ == self.stops@.take(i as int).filter(p),
            decreases self.stops@.len() - i,
        {
            proof {
                reveal(Seq::filter);
                assert(self.stops@.take(i + 1).drop_last() =~= self.stops@.take(i as int));
                assert(self.stops@.take(i + 1).last() == self.stops@[i as int]);
            }
            if contains(&fold(&self.stops[i].name), &question) {
                out.push(self.stops[i].clone());
            }
            i = i + 1;
        }
        assert(self.stops@.take(self.stops@.len() as int) =~= self.stops@);
        out
    }

    /// What is known of a stop.
    pub fn status_for_stop(&self, stop_id: &str) -> (r: Option<StopStatus>)
        ensures
            r is Some <==> status_place(self.statuses@, stop_id@) is Some,
            r matches Some(s) ==> s.same_as(
                self.statuses@[status_place(self.statuses@, stop_id@)->0].1,
            ),
    {
        let mut i: usize = 0;
        assert(self.statuses@.take(0) =~= Seq::<(String, StopStatus)>::empty());
        while i < self.statuses.len()
            invariant
                0 <= i <= self.statuses@.len(),
                status_place(self.statuses@.take(i as int), stop_id@) is None,
            decreases self.statuses@.len() - i,
        {
            proof {
                assert(self.statuses@.take(i + 1).drop_last() =~= self.statuses@.take(i as int));
                assert(self.statuses@.take(i + 1).last() == self.statuses@[i as int]);
            }
            if same_text(&self.statuses[i].0, stop_id) {
                proof {
                    lemma_status_place_stays(self.statuses@, stop_id@, i + 1);
                }
                return Some(self.statuses[i].1.clone());
            }
            i = i + 1;
        }
        assert(self.statuses@.take(self.statuses@.len() as int) =~= self.statuses@);
        None
    }

    /// The nearest stop to a point, within a radius. `metres` holds the distance
    /// of each stop from the point; distances and radius are given by the bits
    /// of their IEEE 754 doubles.
    pub fn nearest(&self, metres: &[u64], radius: u64) -> (r: Option<Stop>)
        requires
            metres@.len() == self.stops@.len(),
        ensures
            r == match nearest_place(metres@, radius) {
                Some(i) => Some(self.stops@[i]),
                None => None,
            },
    {
        let mut best: Option<usize> = None;
        let mut i: usize = 0;
        assert(metres@.take(0) =~= Seq::<u64>::empty());
        while i < metres.len()
            invariant
                0 <= i <= metres@.len(),
                best matches Some(b) ==> b < i,
                crate::loader::place(best) == nearest_place(metres@.take(i as int), radius),
            decreases metres@.len() - i,
        {
            proof {
                assert(metres@.take(i + 1).drop_last() =~= metres@.take(i as int));
                assert(metres@.take(i + 1).last() == metres@[i as int]);
            }
            if is_within(metres[i], radius) {
                best = match best {
                    Some(b) => if metres[i] < metres[b] {
                        Some(i)
                    } else {
                        Some(b)
                    },
                    None => Some(i),
                };
            }
            i = i + 1;
        }
        assert(metres@.take(metres@.len() as int) =~= metres@);
        match best {
            Some(b) => Some(self.stops[b].clone()),
            None => None,
        }
    }
}

// The network that is shown when no timetable is loaded.

/// The age of the data of the invented network, in seconds.
pub const MOCK_AGE_SECS: u64 = 30;

/// Whether `s` is such a stop.
pub open spec fn is_place(
    s: Stop,
    stop_id: Seq<char>,
    name: Seq<char>,
    lat: u64,
    lon: u64,
) -> bool {
    &&& s.stop_id@ == stop_id
    &&& s.name@ == name
    &&& s.lat.bits == lat
    &&& s.lon.bits == lon
}

/// Whether `l` is such a bus line.
pub open spec fn is_bus(
    l: Line,
    route_id: Seq<char>,
    short_name: Seq<char>,
    long_name: Seq<char>,
) -> bool {
    &&& l.route_id@ == route_id
    &&& l.short_name@ == short_name
    &&& l.long_name@ == long_name
    &&& l.mode == TransportMode::Bus
}

/// Whether `d` departs `mins` minutes after `now`, `delay_secs` late, unless it
/// is cancelled.
pub open spec fn is_passage(
    d: Departure,
    now: i64,
    trip_id: Seq<char>,
    headsign: Seq<char>,
    mins: int,
    delay_secs: int,
    cancelled: bool,
) -> bool {
    &&& d.trip_id@ == trip_id
    &&& d.headsign@ == headsign
    &&& d.scheduled == now + mins * 60_000
    &&& d.cancelled == cancelled
    &&& cancelled ==> d.observed is None
    &&& !cancelled ==> (d.observed matches Some(o) && o == d.scheduled + delay_secs * 1000)
}

fn place_at(stop_id: &str, name: &str, lat: u64, lon: u64) -> (r: Stop)
    ensures
        is_place(r, stop_id@, name@, lat, lon),
{
    Stop {
        stop_id: stop_id.to_string(),
        name: name.to_string(),
        lat: Degrees { bits: lat },
        lon: Degrees { bits: lon },
    }
}

fn bus(route_id: &str, short_name: &str, long_name: &str) -> (r: Line)
    ensures
        is_bus(r, route_id@, short_name@, long_name@),
{
    Line {
        route_id: route_id.to_string(),
        short_name: short_name.to_string(),
        long_name: long_name.to_string(),
        mode: TransportMode::Bus,
    }
}

fn passage(
    now: i64,
    trip_id: &str,
    headsign: &str,
    mins: i64,
    delay_secs: i64,
    cancelled: bool,
) -> (r: Departure)
    requires
        0 <= mins <= 60,
        0 <= delay_secs <= 600,
        now <= i64::MAX - 4_200_000,
    ensures
        is_passage(r, now, trip_id@, headsign@, mins as int, delay_secs as int, cancelled),
{
    let scheduled: i64 = now + mins * 60_000;
    let observed: Option<i64> = if cancelled {
        None
    } else {
        Some(scheduled + delay_secs * 1000)
    };
    Departure {
        trip_id: trip_id.to_string(),
        headsign: headsign.to_string(),
        scheduled,
        observed,
        cancelled,
    }
}

/// Whether `x` is what is known of a stop of the invented network, whose data
/// are half a minute old.
pub open spec fn is_known(x: (String, StopStatus), stop: Stop, now: i64) -> bool {
    &&& x.0@ == stop.stop_id@
    &&& x.1.stop == stop
    &&& x.1.last_updated == Some((now - 30_000) as i64)
    &&& x.1.feed_age_secs == Some(MOCK_AGE_SECS)
    &&& x.1.advice@ == advice_text(gravest(x.1.lines@))
    &&& x.1.network is None
}

/// The thresholds by default.
pub open spec fn default_thresholds() -> Thresholds {
    Thresholds {
        late_secs: 180,
        reduced_cancelled_ratio: Ratio { num: 4, den: 10 },
        stale_feed_secs: 120,
    }
}

/// Whether `r` is the invented network at `now`: three stops of Liège.
pub open spec fn is_mock(r: Repo, now: i64) -> bool {
    let th = default_thresholds();
    let opera = r.statuses@[0].1.lines@;
    let republique = r.statuses@[1].1.lines@;
    let guillemins = r.statuses@[2].1.lines@;
    &&& r.thresholds == th
    &&& r.feed_age_secs == Some(MOCK_AGE_SECS)
    &&& r.stops@.len() == 3
    &&& is_place(
        r.stops@[0],
        "tec:liege:opera"@,
        "Liège — Opéra"@,
        0x4049_5251_19ce_075f,
        0x4016_4b29_5e9e_1b09,
    )
    &&& is_place(
        r.stops@[1],
        "tec:liege:republique"@,
        "Liège — République"@,
        0x4049_520c_49ba_5e35,
        0x4016_49ba_5e35_3f7d,
    )
    &&& is_place(
        r.stops@[2],
        "tec:liege:guillemins"@,
        "Liège — Guillemins"@,
        0x4049_4fc5_0481_6f00,
        0x4016_43fe_5c91_d14e,
    )
    &&& r.statuses@.len() == 3
    &&& is_known(r.statuses@[0], r.stops@[0], now)
    &&& is_known(r.statuses@[1], r.stops@[1], now)
    &&& is_known(r.statuses@[2], r.stops@[2], now)
    &&& opera.len() == 3
    &&& is_bus(opera[0].line, "tec:1"@, "1"@, "Gare centrale → Jemeppe"@)
    &&& opera[0].departures@.len() == 2
    &&& is_passage(opera[0].departures@[0], now, "t1a"@, "Jemeppe"@, 5, 0, false)
    &&& is_passage(opera[0].departures@[1], now, "t1b"@, "Jemeppe"@, 18, 45, false)
    &&& is_judged(opera[0], true, None, th)
    &&& is_bus(opera[1].line, "tec:4"@, "4"@, "Opéra → Seraing"@)
    &&& opera[1].departures@.len() == 1
    &&& is_passage(opera[1].departures@[0], now, "t4a"@, "Seraing"@, 7, 360, false)
    &&& is_judged(opera[1], true, None, th)
    &&& is_bus(opera[2].line, "tec:48"@, "48"@, "Guillemins → Visé"@)
    &&& opera[2].departures@.len() == 2
    &&& is_passage(opera[2].departures@[0], now, "t48a"@, "Visé"@, 10, 0, true)
    &&& is_passage(opera[2].departures@[1], now, "t48b"@, "Visé"@, 25, 0, false)
    &&& is_judged(opera[2], true, None, th)
    &&& republique.len() == 2
    &&& is_bus(republique[0].line, "tec:1"@, "1"@, "Gare centrale → Jemeppe"@)
    &&& republique[0].departures@.len() == 1
    &&& is_passage(republique[0].departures@[0], now, "t1c"@, "Jemeppe"@, 9, 0, false)
    &&& is_judged(republique[0], true, None, th)
    &&& is_bus(republique[1].line, "tec:5"@, "5"@, "République → Herstal"@)
    &&& republique[1].departures@.len() == 1
    &&& is_passage(republique[1].departures@[0], now, "t5a"@, "Herstal"@, 12, 0, false)
    &&& is_judged(republique[1], true, Some("Ligne interrompue suite à un incident"@), th)
    &&& guillemins.len() == 2
    &&& is_bus(guillemins[0].line, "tec:48"@, "48"@, "Guillemins → Visé"@)
    &&& guillemins[0].departures@.len() == 1
    &&& is_passage(guillemins[0].departures@[0], now, "t48c"@, "Visé"@, 6, 0, false)
    &&& is_judged(guillemins[0], true, None, th)
    &&& is_bus(guillemins[1].line, "tec:4"@, "4"@, "Opéra → Seraing"@)
    &&& guillemins[1].departures@.len() == 1
    &&& is_passage(guillemins[1].departures@[0], now, "t4b"@, "Seraing"@, 3, 60, false)
    &&& is_judged(guillemins[1], false, None, th)
}

fn one(d: Departure) -> (r: Vec<Departure>)
    ensures
        r@ == seq![d],
{
    let mut v: Vec<Departure> = Vec::new();
    v.push(d);
    assert(v@ =~= seq![d]);
    v
}

fn two(d: Departure, e: Departure) -> (r: Vec<Departure>)
    ensures
        r@ == seq![d, e],
{
    let mut v: Vec<Departure> = Vec::new();
    v.push(d);
    v.push(e);
    assert(v@ =~= seq![d, e]);
    v
}

impl Repo {
    /// An invented network in which each of the five statuses occurs, at `now`
    /// milliseconds from 1970-01-01T00:00:00 UTC.
    pub fn mock(now: i64) -> (r: Self)
        requires
            i64::MIN + 30_000 <= now <= i64::MAX - 4_200_000,
        ensures
            r.wf(),
            is_mock(r, now),
    {
        let thresholds = Thresholds::default();
        let last_updated: Option<i64> = Some(now - 30_000);
        let age: Option<u64> = Some(MOCK_AGE_SECS);
        let opera = place_at(
            "tec:liege:opera",
            "Liège — Opéra",
            0x4049_5251_19ce_075f,
            0x4016_4b29_5e9e_1b09,
        );
        let republique = place_at(
            "tec:liege:republique",
            "Liège — République",
            0x4049_520c_49ba_5e35,
            0x4016_49ba_5e35_3f7d,
        );
        let guillemins = place_at(
            "tec:liege:guillemins",
            "Liège — Guillemins",
            0x4049_4fc5_0481_6f00,
            0x4016_43fe_5c91_d14e,
        );
        let l1 = bus("tec:1", "1", "Gare centrale → Jemeppe");
        let l4 = bus("tec:4", "4", "Opéra → Seraing");
        let l48 = bus("tec:48", "48", "Guillemins → Visé");
        let l5 = bus("tec:5", "5", "République → Herstal");

        let at_opera = vec![
            make_line_status(
                &l1,
                two(
                    passage(now, "t1a", "Jemeppe", 5, 0, false),
                    passage(now, "t1b", "Jemeppe", 18, 45, false),
                ),
                true,
                None,
                thresholds,
            ),
            make_line_status(
                &l4,
                one(passage(now, "t4a", "Seraing", 7, 360, false)),
                true,
                None,
                thresholds,
            ),
            make_line_status(
                &l48,
                two(
                    passage(now, "t48a", "Visé", 10, 0, true),
                    passage(now, "t48b", "Visé", 25, 0, false),
                ),
                true,
                None,
                thresholds,
            ),
        ];
        let at_republique = vec![
            make_line_status(
                &l1,
                one(passage(now, "t1c", "Jemeppe", 9, 0, false)),
                true,
                None,
                thresholds,
            ),
            make_line_status(
                &l5,
                one(passage(now, "t5a", "Herstal", 12, 0, false)),
                true,
                Some("Ligne interrompue suite à un incident"),
                thresholds,
            ),
        ];
        let at_guillemins = vec![
            make_line_status(
                &l48,
                one(passage(now, "t48c", "Visé", 6, 0, false)),
                true,
                None,
                thresholds,
            ),
            // No recent data for this line: its status is unknown.
            make_line_status(
                &l4,
                one(passage(now, "t4b", "Seraing", 3, 60, false)),
                false,
                None,
                thresholds,
            ),
        ];
        let statuses = vec![
            (
                opera.stop_id.clone(),
                build_stop_status(opera.clone(), at_opera, last_updated, age, None),
            ),
            (
                republique.stop_id.clone(),
                build_stop_status(republique.clone(), at_republique, last_updated, age, None),
            ),
            (
                guillemins.stop_id.clone(),
                build_stop_status(guillemins.clone(), at_guillemins, last_updated, age, None),
            ),
        ];
        proof {
            reveal_strlit("tec:liege:opera");
            reveal_strlit("tec:liege:republique");
            reveal_strlit("tec:liege:guillemins");
            assert("tec:liege:opera"@.len() != "tec:liege:republique"@.len());
            assert("tec:liege:republique"@[10] != "tec:liege:guillemins"@[10]);
        }
        let stops = vec![opera, republique, guillemins];
        Repo { stops, statuses, thresholds, feed_age_secs: age }
    }
}

proof fn lemma_few(departures: Seq<Departure>)
    requires
        1 <= departures.len() <= 2,
    ensures
        departures.len() == 1 ==> {
            &&& crate::domain::cancelled_count(departures) == (if departures[0].cancelled {
                1int
            } else {
                0
            })
            &&& crate::domain::worst_delay(departures) == departures[0].running_delay()
        },
        departures.len() == 2 ==> {
            &&& crate::domain::cancelled_count(departures) == (if departures[0].cancelled {
                1int
            } else {
                0
            }) + (if departures[1].cancelled {
                1int
            } else {
                0
            })
            &&& (departures[0].running_delay(), departures[1].running_delay()) matches (
                Some(a),
                Some(b),
            ) ==> crate::domain::worst_delay(departures) == Some(
                if b > a {
                    b
                } else {
                    a
                },
            )
        },
{
    let none = Seq::<Departure>::empty();
    let first = departures.take(1);
    let p = |d: Departure| d.cancelled;
    reveal(Seq::filter);
    assert(none.filter(p).len() == 0);
    assert(first.drop_last() =~= none);
    assert(first.last() == departures[0]);
    assert(crate::domain::worst_delay(none) is None);
    assert(first.filter(p).len() == (if departures[0].cancelled {
        1int
    } else {
        0
    }));
    assert(crate::domain::worst_delay(first) == departures[0].running_delay());
    if departures.len() == 1 {
        assert(departures =~= first);
    } else {
        assert(departures.drop_last() =~= first);
        assert(departures.last() == departures[1]);
        assert(departures.filter(p).len() == first.filter(p).len() + (if departures[1].cancelled {
            1int
        } else {
            0
        }));
    }
}

/// Each of the five statuses occurs in the invented network.
pub proof fn each_status_occurs_in_the_mock(r: Repo, now: i64)
    requires
        is_mock(r, now),
    ensures
        r.statuses@[0].1.lines@[0].status == ServiceStatus::Normal,
        r.statuses@[0].1.lines@[1].status == ServiceStatus::Perturbed,
        r.statuses@[0].1.lines@[2].status == ServiceStatus::Reduced,
        r.statuses@[1].1.lines@[1].status == ServiceStatus::Stopped,
        r.statuses@[2].1.lines@[1].status == ServiceStatus::Unknown,
{
    let opera = r.statuses@[0].1.lines@;
    lemma_few(opera[0].departures@);
    lemma_few(opera[1].departures@);
    lemma_few(opera[2].departures@);
}

/// Each status is found under its key.
pub proof fn each_status_is_found(repo: Repo, i: int)
    requires
        repo.wf(),
        0 <= i < repo.statuses@.len(),
    ensures
        status_place(repo.statuses@, repo.statuses@[i].0@) == Some(i),
{
    let statuses = repo.statuses@;
    let key = statuses[i].0@;
    lemma_no_status_before(repo, i, i);
    assert(statuses.take(i + 1).drop_last() =~= statuses.take(i));
    assert(statuses.take(i + 1).last() == statuses[i]);
    lemma_status_place_stays(statuses, key, i + 1);
}

proof fn lemma_no_status_before(repo: Repo, i: int, n: int)
    requires
        repo.wf(),
        0 <= n <= i < repo.statuses@.len(),
    ensures
        status_place(repo.statuses@.take(n), repo.statuses@[i].0@) is None,
    decreases n,
{
    if n > 0 {
        lemma_no_status_before(repo, i, n - 1);
        assert(repo.statuses@.take(n).drop_last() =~= repo.statuses@.take(n - 1));
        assert(repo.statuses@.take(n).last() == repo.statuses@[n - 1]);
    }
}

/// Questions that differ only in case, accents and the spaces around them find
/// the same stops.
pub proof fn questions_that_fold_alike_find_alike(repo: Repo, q: Seq<char>, other: Seq<char>)
    requires
        folded(q) == folded(other),
    ensures
        repo.stops@.filter(|s: Stop| Repo::name_matches(s, q)) == repo.stops@.filter(
            |s: Stop| Repo::name_matches(s, other),
        ),
{
    crate::table::lemma_filter_same(
        repo.stops@,
        |s: Stop| Repo::name_matches(s, q),
        |s: Stop| Repo::name_matches(s, other),
    );
}

/// Taking accents off twice is taking them off once.
pub proof fn accents_come_off_once(s: Seq<char>)
    ensures
        unaccented_text(unaccented_text(s)) == unaccented_text(s),
{
    assert(unaccented_text(unaccented_text(s)) =~= unaccented_text(s));
}

} // verus!
