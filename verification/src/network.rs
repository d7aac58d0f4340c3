//! The network as a whole: spotting major events (a strike, an incident) by the
//! share of trips that do not run, commune by commune.
//!
//! The commune is taken from the name of the stop (`COMMUNE Place…`), and the
//! fare zone stands in where the name does not tell it.

use crate::domain::text_of;
use crate::loader::StopRow;
use crate::order::{ordered, sort_by};
use crate::ratio::Ratio;
use crate::text::{
    all_digits, ascii_lowered, chars_of, is_ascii_digit, same_ignoring_case, same_text,
    split_whitespace, trim, trimmed, words,
};
use std::collections::HashSet;
use vstd::prelude::*;

verus! {

/// From which share of cancelled trips a commune is in trouble.
#[derive(Debug, Clone, Copy, PartialEq, Eq, Structural)]
pub struct NetworkThresholds {
    /// From this share on, the local network is degraded.
    pub degraded_ratio: Ratio,
    /// From this share on, it is critical: a strike is likely.
    pub critical_ratio: Ratio,
    /// How many trips have to be cancelled for any signal: a small commune with
    /// one cancelled trip is no crisis.
    pub min_annulled: i64,
}

impl Default for NetworkThresholds {
    fn default() -> (r: Self)
        ensures
            r.degraded_ratio == (Ratio { num: 2, den: 10 }),
            r.critical_ratio == (Ratio { num: 5, den: 10 }),
            r.min_annulled == 5,
    {
        NetworkThresholds {
            degraded_ratio: Ratio { num: 2, den: 10 },
            critical_ratio: Ratio { num: 5, den: 10 },
            min_annulled: 5,
        }
    }
}

/// How a commune fares.
#[derive(Debug, Clone, Copy, PartialEq, Eq, Structural)]
pub enum NetworkStatus {
    Normal,
    Degraded,
    Critical,
}

impl NetworkStatus {
    /// The word that is shown for it.
    pub open spec fn label_text(self) -> Seq<char> {
        match self {
            NetworkStatus::Normal => "normale"@,
            NetworkStatus::Degraded => "dégradée"@,
            NetworkStatus::Critical => "critique"@,
        }
    }

    /// The word that is shown for it.
    pub fn label(self) -> (r: &'static str)
        ensures
            r@ == self.label_text(),
    {
        match self {
            NetworkStatus::Normal => "normale",
            NetworkStatus::Degraded => "dégradée",
            NetworkStatus::Critical => "critique",
        }
    }
}

/// How a commune fares, and what that rests on.
#[derive(Debug)]
pub struct CommuneStatus {
    pub commune: String,
    /// The trips that serve the commune today.
    pub trips_scheduled: i64,
    /// Those of them that an alert cancels, or that skip a stop.
    pub trips_cancelled: i64,
    /// The share of trips that are cancelled.
    pub cancelled_ratio: Ratio,
    pub status: NetworkStatus,
    /// The word that is shown: `normale`, `dégradée`, `critique`.
    pub status_label: String,
}

impl Clone for CommuneStatus {
    fn clone(&self) -> (r: Self)
        ensures
            r == *self,
    {
        CommuneStatus {
            commune: self.commune.clone(),
            trips_scheduled: self.trips_scheduled,
            trips_cancelled: self.trips_cancelled,
            cancelled_ratio: self.cancelled_ratio,
            status: self.status,
            status_label: self.status_label.clone(),
        }
    }
}

/// The share of trips that are cancelled: none where no trip is planned.
pub open spec fn cancelled_share(scheduled: i64, cancelled: i64) -> Ratio {
    if scheduled > 0 {
        Ratio { num: cancelled, den: scheduled }
    } else {
        Ratio { num: 0, den: 1 }
    }
}

fn share_of(scheduled: i64, cancelled: i64) -> (r: Ratio)
    ensures
        r == cancelled_share(scheduled, cancelled),
{
    if scheduled > 0 {
        Ratio { num: cancelled, den: scheduled }
    } else {
        Ratio { num: 0, den: 1 }
    }
}

/// How a commune with these trips fares. Without planned trips there is no
/// signal.
pub open spec fn network_status(
    scheduled: i64,
    cancelled: i64,
    th: NetworkThresholds,
) -> NetworkStatus {
    let share = cancelled_share(scheduled, cancelled);
    if scheduled == 0 || cancelled < th.min_annulled {
        NetworkStatus::Normal
    } else if share.at_least_spec(th.critical_ratio) {
        NetworkStatus::Critical
    } else if share.at_least_spec(th.degraded_ratio) {
        NetworkStatus::Degraded
    } else {
        NetworkStatus::Normal
    }
}

impl CommuneStatus {
    /// Whether this says how a commune with these trips fares.
    pub open spec fn tells(
        self,
        commune: Seq<char>,
        scheduled: i64,
        cancelled: i64,
        th: NetworkThresholds,
    ) -> bool {
        &&& self.commune@ == commune
        &&& self.trips_scheduled == scheduled
        &&& self.trips_cancelled == cancelled
        &&& self.cancelled_ratio == cancelled_share(scheduled, cancelled)
        &&& self.status == network_status(scheduled, cancelled, th)
        &&& self.status_label@ == self.status.label_text()
    }

    /// Decides, from the counts and the thresholds, how a commune fares.
    pub fn derive(
        commune: String,
        scheduled: i64,
        cancelled: i64,
        th: NetworkThresholds,
    ) -> (r: Self)
        ensures
            r.commune == commune,
            r.tells(commune@, scheduled, cancelled, th),
    {
        let ratio = share_of(scheduled, cancelled);
        let status = if scheduled == 0 {
            NetworkStatus::Normal
        } else if cancelled >= th.min_annulled && ratio.at_least(th.critical_ratio) {
            NetworkStatus::Critical
        } else if cancelled >= th.min_annulled && ratio.at_least(th.degraded_ratio) {
            NetworkStatus::Degraded
        } else {
            NetworkStatus::Normal
        };
        CommuneStatus {
            commune,
            trips_scheduled: scheduled,
            trips_cancelled: cancelled,
            cancelled_ratio: ratio,
            status,
            status_label: status.label().to_string(),
        }
    }
}

/// The commune that a stop's name tells (`LIEGE Gare des Guillemins` tells
/// `LIEGE`): its first word, or its second where the first is a zone number. A
/// name that is a zone number alone stands for itself.
pub open spec fn commune_named(name: Seq<char>) -> Option<Seq<char>> {
    let w = words(trimmed(name));
    if trimmed(name).len() == 0 {
        None
    } else if w.len() == 0 {
        Some(trimmed(name))
    } else if !all_digits(w[0]) {
        Some(w[0])
    } else if w.len() > 1 {
        Some(w[1])
    } else {
        Some(trimmed(name))
    }
}

fn is_number(s: &str) -> (r: bool)
    ensures
        r == all_digits(s@),
{
    let chars = chars_of(s);
    let mut i: usize = 0;
    while i < chars.len()
        invariant
            chars@ == s@,
            0 <= i <= chars@.len(),
            forall|k: int| 0 <= k < i ==> crate::text::is_digit(#[trigger] chars@[k]),
        decreases chars@.len() - i,
    {
        if !is_ascii_digit(chars[i]) {
            assert(!crate::text::is_digit(s@[i as int]));
            return false;
        }
        i = i + 1;
    }
    true
}

/// The commune that a stop's name tells. None where the name is empty.
pub fn commune_from_stop_name(name: &str) -> (r: Option<String>)
    ensures
        text_of(r) == commune_named(name@),
{
    let text = trim(name);
    if text.as_str().is_empty() {
        return None;
    }
    let parts = split_whitespace(&text);
    assert(parts.deep_view() == words(trimmed(name@)));
    if parts.len() == 0 {
        return Some(text);
    }
    assert(parts.deep_view()[0] == parts@[0]@);
    if !is_number(&parts[0]) {
        return Some(parts[0].clone());
    }
    if parts.len() > 1 {
        assert(parts.deep_view()[1] == parts@[1]@);
        return Some(parts[1].clone());
    }
    Some(text)
}

/// The commune of a stop: the one its name tells or, where it tells none, its
/// fare zone.
pub open spec fn commune_of(s: StopRow) -> Option<Seq<char>> {
    match commune_named(s.stop_name@) {
        Some(c) => Some(c),
        None => text_of(s.zone_id),
    }
}

/// The commune of a stop: the one its name tells or, where it tells none, its
/// fare zone.
pub fn commune_of_stop(s: &StopRow) -> (r: Option<String>)
    ensures
        text_of(r) == commune_of(*s),
{
    match commune_from_stop_name(&s.stop_name) {
        Some(c) => Some(c),
        None => s.zone_id.clone(),
    }
}

/// How many trips serve a commune, and how many of them are cancelled.
#[derive(Debug)]
pub struct NetworkStats {
    pub commune: String,
    pub trips_scheduled: i64,
    pub trips_cancelled: i64,
}

impl Clone for NetworkStats {
    fn clone(&self) -> (r: Self)
        ensures
            r == *self,
    {
        NetworkStats {
            commune: self.commune.clone(),
            trips_scheduled: self.trips_scheduled,
            trips_cancelled: self.trips_cancelled,
        }
    }
}

/// The view of the network: thresholds, and the counts of each commune.
pub struct NetworkService {
    pub thresholds: NetworkThresholds,
    pub stats: Vec<NetworkStats>,
}

/// The larger share comes first; of equal shares, the larger number of trips.
pub open spec fn most_cancelled_first() -> spec_fn(CommuneStatus, CommuneStatus) -> bool {
    |a: CommuneStatus, b: CommuneStatus|
        {
            let (x, y) = (
                cancelled_share(a.trips_scheduled, a.trips_cancelled),
                cancelled_share(b.trips_scheduled, b.trips_cancelled),
            );
            ||| !y.at_least_spec(x)
            ||| (x.at_least_spec(y) && a.trips_cancelled > b.trips_cancelled)
        }
}

fn more_cancelled(a: &CommuneStatus, b: &CommuneStatus) -> (r: bool)
    ensures
        r == most_cancelled_first()(*a, *b),
{
    let x = share_of(a.trips_scheduled, a.trips_cancelled);
    let y = share_of(b.trips_scheduled, b.trips_cancelled);
    !y.at_least(x) || (x.at_least(y) && a.trips_cancelled > b.trips_cancelled)
}

impl NetworkService {
    /// Whether a commune is asked for.
    pub open spec fn asked(s: NetworkStats, filter: Option<Seq<char>>) -> bool {
        filter matches Some(f) ==> ascii_lowered(s.commune@) == ascii_lowered(f)
    }

    /// Whether `list` tells, in their order, of the communes asked for.
    pub open spec fn tells_all(self, list: Seq<CommuneStatus>, filter: Option<Seq<char>>) -> bool {
        let rows = self.stats@.filter(|s: NetworkStats| Self::asked(s, filter));
        &&& list.len() == rows.len()
        &&& forall|i: int|
            0 <= i < list.len() ==> (#[trigger] list[i]).tells(
                rows[i].commune@,
                rows[i].trips_scheduled,
                rows[i].trips_cancelled,
                self.thresholds,
            ) && list[i].commune == rows[i].commune
    }

    /// The view on counts that were stored before.
    pub fn open(stats: Vec<NetworkStats>) -> (r: Self)
        ensures
            r.stats == stats,
            r.thresholds.degraded_ratio == (Ratio { num: 2, den: 10 }),
            r.thresholds.critical_ratio == (Ratio { num: 5, den: 10 }),
            r.thresholds.min_annulled == 5,
    {
        NetworkService { thresholds: NetworkThresholds::default(), stats }
    }

    /// The same view with other thresholds.
    pub fn with_thresholds(self, thresholds: NetworkThresholds) -> (r: Self)
        ensures
            r.stats == self.stats,
            r.thresholds == thresholds,
    {
        NetworkService { thresholds, stats: self.stats }
    }

    /// How the communes fare, the worst first; only the one asked for where one
    /// is, in either case.
    pub fn communes(&self, commune_filter: Option<&str>) -> (r: Vec<CommuneStatus>)
        ensures
            exists|list: Seq<CommuneStatus>| #[trigger]
                self.tells_all(list, crate::domain::str_of(commune_filter)) && r@ == ordered(
                    list,
                    most_cancelled_first(),
                ),
    {
        let ghost f = crate::domain::str_of(commune_filter);
        let ghost p = |s: NetworkStats| Self::asked(s, f);
        let mut list: Vec<CommuneStatus> = Vec::new();
        let mut i: usize = 0;
        proof {
            reveal(Seq::filter);
            assert(self.stats@.take(0) =~= Seq::<NetworkStats>::empty());
        }
        while i < self.stats.len()
            invariant
                0 <= i <= self.stats@.len(),
                f == crate::domain::str_of(commune_filter),
                p == (|s: NetworkStats| Self::asked(s, f)),
                list@.len() == self.stats@.take(i as int).filter(p).len(),
                forall|k: int|
                    0 <= k < list@.len() ==> (#[trigger] list@[k]).tells(
                        self.stats@.take(i as int).filter(p)[k].commune@,
                        self.stats@.take(i as int).filter(p)[k].trips_scheduled,
                        self.stats@.take(i as int).filter(p)[k].trips_cancelled,
                        self.thresholds,
                    ) && list@[k].commune == self.stats@.take(i as int).filter(p)[k].commune,
            decreases self.stats@.len() - i,
        {
            let s = &self.stats[i];
            proof {
                reveal(Seq::filter);
                assert(self.stats@.take(i + 1).drop_last() =~= self.stats@.take(i as int));
                assert(self.stats@.take(i + 1).last() == *s);
            }
            let asked = match commune_filter {
                Some(c) => same_ignoring_case(&s.commune, c),
                None => true,
            };
            if asked {
                list.push(
                    CommuneStatus::derive(
                        s.commune.clone(),
                        s.trips_scheduled,
                        s.trips_cancelled,
                        self.thresholds,
                    ),
                );
            }
            i = i + 1;
        }
        assert(self.stats@.take(self.stats@.len() as int) =~= self.stats@);
        assert(self.tells_all(list@, f));
        sort_by(list, more_cancelled, Ghost(most_cancelled_first()))
    }

    /// How a commune fares, where it is known.
    pub fn commune(&self, commune: &str) -> (r: Option<CommuneStatus>)
        ensures
            exists|list: Seq<CommuneStatus>| #[trigger]
                self.tells_all(list, Some(commune@)) && r == ({
                    let sorted = ordered(list, most_cancelled_first());
                    if sorted.len() > 0 {
                        Some(sorted[0])
                    } else {
                        None
                    }
                }),
    {
        let list = self.communes(Some(commune));
        if list.len() > 0 {
            Some(list[0].clone())
        } else {
            None
        }
    }
}

/// A call of a trip at a stop: the place of the stop in the list of stops, and
/// the number of the trip, by which trips are told apart.
#[derive(Debug, Clone, Copy, PartialEq, Eq, Structural)]
pub struct Call {
    pub stop: usize,
    pub trip: u64,
}

/// Whether a trip calls in a commune.
pub open spec fn calls_in(
    stops: Seq<StopRow>,
    calls: Seq<Call>,
    trip: u64,
    commune: Seq<char>,
) -> bool {
    exists|i: int|
        0 <= i < calls.len() && (#[trigger] calls[i]).trip == trip && commune_of(
            stops[calls[i].stop as int],
        ) == Some(commune)
}

/// The trips that call in a commune.
pub open spec fn trips_in(stops: Seq<StopRow>, calls: Seq<Call>, commune: Seq<char>) -> Set<u64> {
    Set::new(|trip: u64| calls_in(stops, calls, trip, commune))
}

/// The cancelled trips that call in a commune.
pub open spec fn cancelled_in(
    stops: Seq<StopRow>,
    calls: Seq<Call>,
    cancelled: Seq<u64>,
    commune: Seq<char>,
) -> Set<u64> {
    Set::new(|trip: u64| calls_in(stops, calls, trip, commune) && cancelled.contains(trip))
}

/// Whether `stats` counts, for each commune with a call and for no other, once,
/// the trips that call there and those of them that are cancelled.
pub open spec fn counts_all(
    stats: Seq<NetworkStats>,
    stops: Seq<StopRow>,
    calls: Seq<Call>,
    cancelled: Seq<u64>,
) -> bool {
    &&& forall|i: int, j: int|
        0 <= i < j < stats.len() ==> (#[trigger] stats[i]).commune@ != (
        #[trigger] stats[j]).commune@
    &&& forall|i: int|
        0 <= i < stats.len() ==> counts_one(#[trigger] stats[i], stops, calls, cancelled)
    &&& forall|k: int|
        0 <= k < calls.len() && commune_of(stops[(#[trigger] calls[k]).stop as int]) is Some
            ==> is_counted(stats, commune_of(stops[calls[k].stop as int])->0)
}

/// Whether a row counts the trips of its commune.
pub open spec fn counts_one(
    s: NetworkStats,
    stops: Seq<StopRow>,
    calls: Seq<Call>,
    cancelled: Seq<u64>,
) -> bool {
    &&& s.trips_scheduled == trips_in(stops, calls, s.commune@).len()
    &&& s.trips_cancelled == cancelled_in(stops, calls, cancelled, s.commune@).len()
    &&& s.trips_scheduled > 0
}

/// Whether a commune has a row.
pub open spec fn is_counted(stats: Seq<NetworkStats>, commune: Seq<char>) -> bool {
    exists|i: int| 0 <= i < stats.len() && (#[trigger] stats[i]).commune@ == commune
}

fn find_stats(stats: &Vec<NetworkStats>, commune: &str) -> (r: bool)
    ensures
        r == is_counted(stats@, commune@),
{
    let mut i: usize = 0;
    while i < stats.len()
        invariant
            0 <= i <= stats@.len(),
            forall|k: int| 0 <= k < i ==> (#[trigger] stats@[k]).commune@ != commune@,
        decreases stats@.len() - i,
    {
        if same_text(&stats[i].commune, commune) {
            return true;
        }
        i = i + 1;
    }
    false
}

/// The communes of the stops, in the order of the stops.
fn communes_of(stops: &[StopRow]) -> (r: Vec<Option<String>>)
    ensures
        r@.len() == stops@.len(),
        forall|i: int| 0 <= i < r@.len() ==> text_of(#[trigger] r@[i]) == commune_of(stops@[i]),
{
    let mut out: Vec<Option<String>> = Vec::new();
    let mut i: usize = 0;
    while i < stops.len()
        invariant
            0 <= i <= stops@.len(),
            out@.len() == i,
            forall|k: int| 0 <= k < i ==> text_of(#[trigger] out@[k]) == commune_of(stops@[k]),
        decreases stops@.len() - i,
    {
        out.push(commune_of_stop(&stops[i]));
        i = i + 1;
    }
    out
}

/// Counts the trips of one commune.
fn count_commune(
    commune: &str,
    stops: &[StopRow],
    inside: &Vec<bool>,
    calls: &[Call],
    cancelled: &[u64],
    is_cancelled: &HashSet<u64>,
) -> (r: (usize, usize))
    requires
        inside@.len() == stops@.len(),
        forall|i: int|
            0 <= i < stops@.len() ==> (#[trigger] inside@[i]) == (commune_of(stops@[i]) == Some(
                commune@,
            )),
        forall|i: int| 0 <= i < calls@.len() ==> (#[trigger] calls@[i]).stop < stops@.len(),
        forall|t: u64| is_cancelled@.contains(t) <==> #[trigger] cancelled@.contains(t),
    ensures
        r.0 == trips_in(stops@, calls@, commune@).len(),
        r.1 == cancelled_in(stops@, calls@, cancelled@, commune@).len(),
{
    broadcast use vstd::std_specs::hash::group_hash_axioms;

    let mut seen: HashSet<u64> = HashSet::new();
    let mut dropped: HashSet<u64> = HashSet::new();
    let mut i: usize = 0;
    while i < calls.len()
        invariant
            0 <= i <= calls@.len(),
            inside@.len() == stops@.len(),
            forall|i: int|
                0 <= i < stops@.len() ==> (#[trigger] inside@[i]) == (commune_of(stops@[i])
                    == Some(commune@)),
            forall|i: int| 0 <= i < calls@.len() ==> (#[trigger] calls@[i]).stop < stops@.len(),
            forall|t: u64| is_cancelled@.contains(t) <==> #[trigger] cancelled@.contains(t),
            forall|t: u64| #[trigger]
                seen@.contains(t) <==> calls_in(stops@, calls@.take(i as int), t, commune@),
            forall|t: u64| #[trigger]
                dropped@.contains(t) <==> calls_in(stops@, calls@.take(i as int), t, commune@)
                    && cancelled@.contains(t),
        decreases calls@.len() - i,
    {
        let call = calls[i];
        proof {
            lemma_one_more_call(stops@, calls@, i as int, commune@);
        }
        if inside[call.stop] {
            seen.insert(call.trip);
            if is_cancelled.contains(&call.trip) {
                dropped.insert(call.trip);
            }
        }
        i = i + 1;
    }
    assert(calls@.take(calls@.len() as int) =~= calls@);
    assert(seen@ =~= trips_in(stops@, calls@, commune@));
    assert(dropped@ =~= cancelled_in(stops@, calls@, cancelled@, commune@));
    (seen.len(), dropped.len())
}

proof fn lemma_one_more_call(stops: Seq<StopRow>, calls: Seq<Call>, i: int, commune: Seq<char>)
    requires
        0 <= i < calls.len(),
    ensures
        forall|t: u64| #[trigger]
            calls_in(stops, calls.take(i + 1), t, commune) <==> calls_in(
                stops,
                calls.take(i),
                t,
                commune,
            ) || (calls[i].trip == t && commune_of(stops[calls[i].stop as int]) == Some(commune)),
{
    assert forall|t: u64| #[trigger]
        calls_in(stops, calls.take(i + 1), t, commune) <==> calls_in(
            stops,
            calls.take(i),
            t,
            commune,
        ) || (calls[i].trip == t && commune_of(stops[calls[i].stop as int]) == Some(commune)) by {
        let a = calls.take(i);
        let b = calls.take(i + 1);
        assert(b[i] == calls[i]);
        if calls_in(stops, a, t, commune) {
            let k = choose|k: int|
                0 <= k < a.len() && (#[trigger] a[k]).trip == t && commune_of(
                    stops[a[k].stop as int],
                ) == Some(commune);
            assert(b[k] == a[k]);
        }
        if calls_in(stops, b, t, commune) {
            let k = choose|k: int|
                0 <= k < b.len() && (#[trigger] b[k]).trip == t && commune_of(
                    stops[b[k].stop as int],
                ) == Some(commune);
            if k < i {
                assert(a[k] == b[k]);
            }
        }
    }
}

fn set_of(items: &[u64]) -> (r: HashSet<u64>)
    ensures
        forall|t: u64| r@.contains(t) <==> #[trigger] items@.contains(t),
{
    broadcast use vstd::std_specs::hash::group_hash_axioms;

    let mut set: HashSet<u64> = HashSet::new();
    let mut i: usize = 0;
    while i < items.len()
        invariant
            0 <= i <= items@.len(),
            forall|t: u64|
                set@.contains(t) <==> exists|k: int| 0 <= k < i && #[trigger] items@[k] == t,
        decreases items@.len() - i,
    {
        set.insert(items[i]);
        i = i + 1;
    }
    assert forall|t: u64| set@.contains(t) <==> #[trigger] items@.contains(t) by {
        if items@.contains(t) {
            let k = choose|k: int| 0 <= k < items@.len() && items@[k] == t;
            assert(items@[k] == t);
        }
    }
    set
}

/// Which stops lie in a commune.
fn stops_inside(communes: &Vec<Option<String>>, commune: &str, stops: &[StopRow]) -> (r: Vec<bool>)
    requires
        communes@.len() == stops@.len(),
        forall|k: int|
            0 <= k < stops@.len() ==> text_of(#[trigger] communes@[k]) == commune_of(stops@[k]),
    ensures
        r@.len() == stops@.len(),
        forall|i: int|
            0 <= i < stops@.len() ==> (#[trigger] r@[i]) == (commune_of(stops@[i]) == Some(
                commune@,
            )),
{
    let mut out: Vec<bool> = Vec::new();
    let mut i: usize = 0;
    while i < communes.len()
        invariant
            0 <= i <= communes@.len(),
            communes@.len() == stops@.len(),
            forall|k: int|
                0 <= k < stops@.len() ==> text_of(#[trigger] communes@[k]) == commune_of(stops@[k]),
            out@.len() == i,
            forall|k: int|
                0 <= k < i ==> (#[trigger] out@[k]) == (commune_of(stops@[k]) == Some(commune@)),
        decreases communes@.len() - i,
    {
        let inside = match &communes[i] {
            Some(c) => same_text(c, commune),
            None => false,
        };
        assert(text_of(communes@[i as int]) == commune_of(stops@[i as int]));
        out.push(inside);
        i = i + 1;
    }
    out
}

pub(crate) proof fn lemma_count_bounds(
    stops: Seq<StopRow>,
    calls: Seq<Call>,
    cancelled: Seq<u64>,
    commune: Seq<char>,
)
    ensures
        trips_in(stops, calls, commune).finite(),
        trips_in(stops, calls, commune).len() <= calls.len(),
        cancelled_in(stops, calls, cancelled, commune).finite(),
        cancelled_in(stops, calls, cancelled, commune).len() <= trips_in(
            stops,
            calls,
            commune,
        ).len(),
{
    let numbers = calls.map_values(|c: Call| c.trip);
    numbers.lemma_cardinality_of_set();
    vstd::seq_lib::seq_to_set_is_finite(numbers);
    let trips = trips_in(stops, calls, commune);
    assert forall|t: u64| trips.contains(t) implies numbers.to_set().contains(t) by {
        let i = choose|i: int|
            0 <= i < calls.len() && (#[trigger] calls[i]).trip == t && commune_of(
                stops[calls[i].stop as int],
            ) == Some(commune);
        assert(numbers[i] == t);
    }
    assert(trips.subset_of(numbers.to_set()));
    vstd::set_lib::lemma_len_subset(trips, numbers.to_set());
    let gone = cancelled_in(stops, calls, cancelled, commune);
    assert(gone.subset_of(trips));
    vstd::set_lib::lemma_len_subset(gone, trips);
}

impl NetworkService {
    /// Counts anew, for each commune, the trips that call there and those of
    /// them that are cancelled; says how many communes there are.
    pub fn count_calls(&mut self, stops: &[StopRow], calls: &[Call], cancelled: &[u64]) -> (r:
        usize)
        requires
            forall|i: int| 0 <= i < calls@.len() ==> (#[trigger] calls@[i]).stop < stops@.len(),
            calls@.len() <= i64::MAX,
        ensures
            final(self).thresholds == old(self).thresholds,
            counts_all(final(self).stats@, stops@, calls@, cancelled@),
            r == final(self).stats@.len(),
    {
        let communes = communes_of(stops);
        let is_cancelled = set_of(cancelled);
        let mut stats: Vec<NetworkStats> = Vec::new();
        let mut i: usize = 0;
        while i < calls.len()
            invariant
                0 <= i <= calls@.len() <= i64::MAX,
                communes@.len() == stops@.len(),
                forall|k: int|
                    0 <= k < stops@.len() ==> text_of(#[trigger] communes@[k]) == commune_of(
                        stops@[k],
                    ),
                forall|k: int| 0 <= k < calls@.len() ==> (#[trigger] calls@[k]).stop < stops@.len(),
                forall|t: u64| is_cancelled@.contains(t) <==> #[trigger] cancelled@.contains(t),
                forall|a: int, b: int|
                    0 <= a < b < stats@.len() ==> (#[trigger] stats@[a]).commune@ != (
                    #[trigger] stats@[b]).commune@,
                forall|k: int|
                    0 <= k < stats@.len() ==> counts_one(
                        #[trigger] stats@[k],
                        stops@,
                        calls@,
                        cancelled@,
                    ),
                forall|k: int|
                    0 <= k < i && commune_of(stops@[(#[trigger] calls@[k]).stop as int]) is Some
                        ==> is_counted(stats@, commune_of(stops@[calls@[k].stop as int])->0),
            decreases calls@.len() - i,
        {
            if let Some(commune) = &communes[calls[i].stop] {
                if !find_stats(&stats, commune) {
                    let ghost before = stats@;
                    let inside = stops_inside(&communes, commune, stops);
                    let (scheduled, dropped) = count_commune(
                        commune,
                        stops,
                        &inside,
                        calls,
                        cancelled,
                        &is_cancelled,
                    );
                    proof {
                        lemma_count_bounds(stops@, calls@, cancelled@, commune@);
                        assert(calls_in(stops@, calls@, calls@[i as int].trip, commune@));
                        assert(trips_in(stops@, calls@, commune@).contains(
                            calls@[i as int].trip,
                        ));
                    }
                    stats.push(
                        NetworkStats {
                            commune: commune.clone(),
                            trips_scheduled: scheduled as i64,
                            trips_cancelled: dropped as i64,
                        },
                    );
                    assert(stats@[before.len() as int].commune@ == commune@);
                    assert forall|k: int| 0 <= k < before.len() implies stats@[k]
                        == #[trigger] before[k] by {}
                }
                assert(is_counted(stats@, commune@));
            }
            i = i + 1;
        }
        self.stats = stats;
        self.stats.len()
    }
}

/// Fewer cancelled trips than the minimum are no signal, whatever their share.
pub proof fn few_cancellations_are_no_signal(scheduled: i64, cancelled: i64, th: NetworkThresholds)
    requires
        cancelled < th.min_annulled,
    ensures
        network_status(scheduled, cancelled, th) == NetworkStatus::Normal,
{
}

/// A commune without planned trips is no signal.
pub proof fn no_service_is_no_signal(cancelled: i64, th: NetworkThresholds)
    ensures
        network_status(0, cancelled, th) == NetworkStatus::Normal,
        cancelled_share(0, cancelled) == (Ratio { num: 0, den: 1 }),
{
}

/// No commune has more cancelled trips than trips.
pub proof fn no_more_cancelled_than_scheduled(
    stats: Seq<NetworkStats>,
    stops: Seq<StopRow>,
    calls: Seq<Call>,
    cancelled: Seq<u64>,
    i: int,
)
    requires
        counts_all(stats, stops, calls, cancelled),
        0 <= i < stats.len(),
    ensures
        0 <= stats[i].trips_cancelled <= stats[i].trips_scheduled,
{
    assert(counts_one(stats[i], stops, calls, cancelled));
    lemma_count_bounds(stops, calls, cancelled, stats[i].commune@);
}

proof fn lemma_shares_compare(a: Ratio, b: Ratio, c: Ratio)
    requires
        a.den > 0,
        b.den > 0,
        c.den > 0,
    ensures
        a.at_least_spec(b) || b.at_least_spec(a),
        a.at_least_spec(b) && b.at_least_spec(c) ==> a.at_least_spec(c),
        b.at_least_spec(c) && c.at_least_spec(a) ==> b.at_least_spec(a),
        c.at_least_spec(a) && a.at_least_spec(b) ==> c.at_least_spec(b),
{
    if a.at_least_spec(b) && b.at_least_spec(c) {
        crate::ratio::at_least_is_transitive(a, b, c);
    }
    if b.at_least_spec(c) && c.at_least_spec(a) {
        crate::ratio::at_least_is_transitive(b, c, a);
    }
    if c.at_least_spec(a) && a.at_least_spec(b) {
        crate::ratio::at_least_is_transitive(c, a, b);
    }
}

/// Putting the most cancelled first is an order.
pub proof fn most_cancelled_first_is_an_order()
    ensures
        crate::order::is_order(most_cancelled_first()),
{
    let lt = most_cancelled_first();
    assert forall|a: CommuneStatus, b: CommuneStatus| #[trigger] lt(a, b) implies !lt(b, a) by {
        let x = cancelled_share(a.trips_scheduled, a.trips_cancelled);
        let y = cancelled_share(b.trips_scheduled, b.trips_cancelled);
        lemma_shares_compare(x, y, x);
    }
    assert forall|a: CommuneStatus, b: CommuneStatus, c: CommuneStatus|
        #![trigger lt(b, a), lt(c, b)]
        !lt(b, a) && !lt(c, b) implies !lt(c, a) by {
        let x = cancelled_share(a.trips_scheduled, a.trips_cancelled);
        let y = cancelled_share(b.trips_scheduled, b.trips_cancelled);
        let z = cancelled_share(c.trips_scheduled, c.trips_cancelled);
        lemma_shares_compare(x, y, z);
        lemma_shares_compare(z, y, x);
    }
}

/// The communes come the worst first: no share is smaller than one behind it
/// and, of equal shares, no number of cancelled trips is.
pub proof fn the_worst_commune_comes_first(list: Seq<CommuneStatus>, i: int, j: int)
    requires
        0 <= i < j < list.len(),
    ensures
        ({
            let sorted = ordered(list, most_cancelled_first());
            let x = cancelled_share(sorted[i].trips_scheduled, sorted[i].trips_cancelled);
            let y = cancelled_share(sorted[j].trips_scheduled, sorted[j].trips_cancelled);
            &&& x.at_least_spec(y)
            &&& y.at_least_spec(x) ==> sorted[i].trips_cancelled >= sorted[j].trips_cancelled
        }),
{
    most_cancelled_first_is_an_order();
    crate::order::ordered_is_in_order(list, most_cancelled_first());
}

} // verus!
