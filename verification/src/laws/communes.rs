//! Laws of the network as a whole: which commune a stop lies in, how a commune
//! fares, and in which order the communes are told.

use crate::loader::StopRow;
use crate::network::{
    commune_from_stop_name, commune_of, commune_of_stop, most_cancelled_first, Call, CommuneStatus,
    NetworkService, NetworkStats, NetworkStatus, NetworkThresholds,
};
use crate::domain::NetworkContext;
use crate::order::ordered;
use crate::ratio::Ratio;
use crate::status::{derive_commune_status, StatusService};
use crate::text::{all_digits, ascii_lowered, is_space, trim_start, trimmed, words};
use vstd::prelude::*;

verus! {

/// Whether a text is white space all through.
pub open spec fn is_blank(s: Seq<char>) -> bool {
    forall|i: int| 0 <= i < s.len() ==> is_space(#[trigger] s[i])
}

/// Whether a text is a word: characters, none of them white space.
pub open spec fn is_word(s: Seq<char>) -> bool {
    s.len() > 0 && forall|i: int| 0 <= i < s.len() ==> !is_space(#[trigger] s[i])
}

/// Whether a text can stand behind a word: it is empty, or white space parts it
/// from the word and it does not end in white space.
pub open spec fn goes_on(s: Seq<char>) -> bool {
    s.len() > 0 ==> is_space(s[0]) && !is_space(s.last())
}

/// Whether a text is written with the digits `0` to `9` alone.
pub open spec fn is_numeric(s: Seq<char>) -> bool {
    forall|i: int| 0 <= i < s.len() ==> '0' as u32 <= (#[trigger] s[i]) as u32 <= '9' as u32
}

proof fn lemma_first_word(w: Seq<char>, tail: Seq<char>)
    requires
        is_word(w),
        goes_on(tail),
    ensures
        words(w + tail) == seq![w] + words(tail),
{
    let s = w + tail;
    assert(s[0] == w[0]);
    assert(trim_start(s) == s);
    assert forall|k: int| 0 <= k < w.len() implies !is_space(#[trigger] s[k]) by {
        assert(s[k] == w[k]);
    }
    if tail.len() > 0 {
        assert(s[w.len() as int] == tail[0]);
    }
    crate::text::lemma_word_len_is(s, w.len() as int);
    assert(s.take(w.len() as int) =~= w);
    assert(s.skip(w.len() as int) =~= tail);
}

proof fn lemma_gap(gap: Seq<char>, s: Seq<char>)
    requires
        is_blank(gap),
        s.len() > 0,
        !is_space(s[0]),
    ensures
        trim_start(gap + s) == s,
        words(gap + s) == words(s),
    decreases gap.len(),
{
    let t = gap + s;
    if gap.len() == 0 {
        assert(t =~= s);
    } else {
        let rest = gap.drop_first();
        assert(t[0] == gap[0]);
        assert(t.drop_first() =~= rest + s);
        assert forall|i: int| 0 <= i < rest.len() implies is_space(#[trigger] rest[i]) by {
            assert(rest[i] == gap[i + 1]);
        }
        lemma_gap(rest, s);
        assert(trim_start(s) == s);
    }
}

proof fn lemma_ends(w: Seq<char>, tail: Seq<char>)
    requires
        is_word(w),
        goes_on(tail),
    ensures
        (w + tail).len() > 0,
        !is_space((w + tail)[0]),
        !is_space((w + tail).last()),
{
    let s = w + tail;
    assert(s[0] == w[0]);
    if tail.len() > 0 {
        assert(s.last() == tail.last());
    } else {
        assert(s.last() == w[w.len() - 1]);
    }
}

/// A text is split into its words: the first, behind any blanks, and then those of
/// the rest.
pub proof fn a_text_is_split_into_its_words(
    text: &str,
    rest: &str,
    before: Seq<char>,
    w: Seq<char>,
    r: Vec<String>,
    s: Vec<String>,
    i: int,
)
    requires
        is_blank(before),
        is_word(w),
        goes_on(rest@),
        text@ == before + (w + rest@),
        call_ensures(crate::text::split_whitespace, (text,), r),
        call_ensures(crate::text::split_whitespace, (rest,), s),
    ensures
        r@.len() == s@.len() + 1,
        r@[0]@ == w,
        0 <= i < s@.len() ==> r@[i + 1]@ == s@[i]@,
{
    lemma_ends(w, rest@);
    lemma_gap(before, w + rest@);
    lemma_first_word(w, rest@);
    let all = seq![w] + words(rest@);
    assert(r.deep_view() == all);
    assert(r.deep_view().len() == r@.len() && s.deep_view().len() == s@.len());
    assert(r.deep_view()[0] == r@[0]@);
    if 0 <= i < s@.len() {
        assert(r.deep_view()[i + 1] == r@[i + 1]@);
        assert(s.deep_view()[i] == s@[i]@);
    }
}

/// The commune of a stop is the first word of its name, whatever blanks stand
/// around it and whatever follows, unless the word is a number.
pub proof fn the_first_word_is_the_commune(
    name: &str,
    r: Option<String>,
    before: Seq<char>,
    w: Seq<char>,
    tail: Seq<char>,
    after: Seq<char>,
)
    requires
        call_ensures(commune_from_stop_name, (name,), r),
        is_blank(before),
        is_word(w),
        !is_numeric(w),
        goes_on(tail),
        is_blank(after),
        name@ == before + (w + tail) + after,
    ensures
        r matches Some(c) && c@ == w,
{
    lemma_ends(w, tail);
    crate::text::blanks_come_off(before, w + tail, after);
    lemma_first_word(w, tail);
    assert(!all_digits(w)) by {
        if all_digits(w) {
            assert forall|i: int| 0 <= i < w.len() implies '0' as u32 <= (
            #[trigger] w[i]) as u32 <= '9' as u32 by {
                assert(crate::text::is_digit(w[i]));
            }
        }
    }
    assert(words(w + tail)[0] == w);
}

/// A zone number in front of the name is passed over: the commune is the second
/// word.
pub proof fn a_zone_number_is_passed_over(
    name: &str,
    r: Option<String>,
    before: Seq<char>,
    zone: Seq<char>,
    gap: Seq<char>,
    w: Seq<char>,
    tail: Seq<char>,
    after: Seq<char>,
)
    requires
        call_ensures(commune_from_stop_name, (name,), r),
        is_blank(before),
        zone.len() > 0,
        is_numeric(zone),
        is_blank(gap),
        gap.len() > 0,
        is_word(w),
        goes_on(tail),
        is_blank(after),
        name@ == before + (zone + (gap + (w + tail))) + after,
    ensures
        r matches Some(c) && c@ == w,
{
    let rest = gap + (w + tail);
    assert forall|i: int| 0 <= i < zone.len() implies !is_space(#[trigger] zone[i]) by {}
    lemma_ends(w, tail);
    assert(rest[0] == gap[0]);
    assert(rest.last() == (w + tail).last());
    lemma_ends(zone, rest);
    crate::text::blanks_come_off(before, zone + rest, after);
    lemma_first_word(zone, rest);
    lemma_gap(gap, w + tail);
    lemma_first_word(w, tail);
    assert(all_digits(zone)) by {
        assert forall|i: int| 0 <= i < zone.len() implies crate::text::is_digit(
            #[trigger] zone[i],
        ) by {}
    }
    let all = words(zone + rest);
    assert(all == seq![zone] + (seq![w] + words(tail)));
    assert(all[0] == zone);
    assert(all[1] == w);
}

/// A name that is a number alone stands for itself, and a blank name tells no
/// commune.
pub proof fn a_number_alone_stands_for_itself(
    name: &str,
    r: Option<String>,
    before: Seq<char>,
    zone: Seq<char>,
    after: Seq<char>,
)
    requires
        call_ensures(commune_from_stop_name, (name,), r),
        is_blank(before),
        is_numeric(zone),
        is_blank(after),
        name@ == before + zone + after,
    ensures
        zone.len() > 0 ==> (r matches Some(c) && c@ == zone),
        zone.len() == 0 ==> r is None,
{
    if zone.len() > 0 {
        let none = Seq::<char>::empty();
        assert forall|i: int| 0 <= i < zone.len() implies !is_space(#[trigger] zone[i]) by {}
        assert(zone + none =~= zone);
        lemma_ends(zone, none);
        crate::text::blanks_come_off(before, zone, after);
        lemma_first_word(zone, none);
        assert(trim_start(none) =~= none);
        assert(words(none) =~= Seq::<Seq<char>>::empty());
        assert(all_digits(zone)) by {
            assert forall|i: int| 0 <= i < zone.len() implies crate::text::is_digit(
                #[trigger] zone[i],
            ) by {}
        }
        assert(words(zone) =~= seq![zone]);
    } else {
        let s = before + after;
        assert(name@ =~= s);
        assert forall|i: int| 0 <= i < s.len() implies is_space(#[trigger] s[i]) by {
            if i < before.len() {
                assert(s[i] == before[i]);
            } else {
                assert(s[i] == after[i - before.len()]);
            }
        }
        lemma_blank_trims(s);
    }
}

proof fn lemma_blank_trims(s: Seq<char>)
    requires
        is_blank(s),
    ensures
        trimmed(s).len() == 0,
    decreases s.len(),
{
    if s.len() > 0 {
        let t = s.drop_first();
        assert forall|i: int| 0 <= i < t.len() implies is_space(#[trigger] t[i]) by {
            assert(t[i] == s[i + 1]);
        }
        assert(is_space(s[0]));
        lemma_blank_trims(t);
    }
}

/// A stop lies in the commune that its name tells or, where it tells none, in its
/// fare zone.
pub proof fn the_zone_stands_in_for_the_name(
    s: &StopRow,
    name: &str,
    told: Option<String>,
    r: Option<String>,
)
    requires
        name@ == s.stop_name@,
        call_ensures(commune_from_stop_name, (name,), told),
        call_ensures(commune_of_stop, (s,), r),
    ensures
        told matches Some(c) ==> (r matches Some(d) && d@ == c@ && commune_of(*s) == Some(c@)),
        told is None && s.zone_id is Some ==> (r matches Some(d) && d@ == s.zone_id->0@
            && commune_of(*s) == Some(s.zone_id->0@)),
        told is None && s.zone_id is None ==> r is None && commune_of(*s) is None,
{
}

/// The trips that call at a stop of a commune.
pub open spec fn callers(stops: Seq<StopRow>, calls: Seq<Call>, commune: Seq<char>) -> Set<u64> {
    Set::new(
        |trip: u64|
            exists|i: int|
                0 <= i < calls.len() && (#[trigger] calls[i]).trip == trip && commune_of(
                    stops[calls[i].stop as int],
                ) == Some(commune),
    )
}

/// Counting calls leaves a row for each commune in which there is one, and for no
/// other: it counts each trip once, and among them those that are cancelled.
pub proof fn each_trip_counts_once_in_a_commune(
    network: &mut NetworkService,
    stops: &[StopRow],
    calls: &[Call],
    cancelled: &[u64],
    r: usize,
    k: int,
)
    requires
        call_ensures(NetworkService::count_calls, (network, stops, calls, cancelled), r),
    ensures
        final(network).thresholds == old(network).thresholds,
        r == final(network).stats@.len(),
        forall|i: int|
            0 <= i < final(network).stats@.len() ==> {
                let s = #[trigger] final(network).stats@[i];
                let trips = callers(stops@, calls@, s.commune@);
                &&& s.trips_scheduled == trips.len()
                &&& s.trips_cancelled == trips.filter(|t: u64| cancelled@.contains(t)).len()
                &&& s.trips_scheduled > 0
            },
        0 <= k < calls@.len() && commune_of(stops@[calls@[k].stop as int]) is Some ==> exists|
            i: int,
        |
            0 <= i < final(network).stats@.len() && (#[trigger] final(network).stats@[i]).commune@
                == commune_of(stops@[calls@[k].stop as int])->0,
{
    assert forall|i: int| 0 <= i < final(network).stats@.len() implies {
        let s = #[trigger] final(network).stats@[i];
        let trips = callers(stops@, calls@, s.commune@);
        &&& s.trips_scheduled == trips.len()
        &&& s.trips_cancelled == trips.filter(|t: u64| cancelled@.contains(t)).len()
        &&& s.trips_scheduled > 0
    } by {
        let s = final(network).stats@[i];
        let trips = callers(stops@, calls@, s.commune@);
        assert(crate::network::counts_one(s, stops@, calls@, cancelled@));
        assert(crate::network::trips_in(stops@, calls@, s.commune@) =~= trips);
        assert(crate::network::cancelled_in(stops@, calls@, cancelled@, s.commune@)
            =~= trips.filter(|t: u64| cancelled@.contains(t)));
    }
    if 0 <= k < calls@.len() && commune_of(stops@[calls@[k].stop as int]) is Some {
        assert(crate::network::is_counted(
            final(network).stats@,
            commune_of(stops@[calls@[k].stop as int])->0,
        ));
    }
}

/// Whether the share of cancelled trips reaches a threshold.
pub open spec fn reaches(scheduled: i64, cancelled: i64, threshold: Ratio) -> bool {
    if threshold.den > 0 {
        cancelled * threshold.den >= threshold.num * scheduled
    } else {
        cancelled * threshold.den <= threshold.num * scheduled
    }
}

/// Whether a commune with these trips is told to fare so: critical where enough
/// trips are cancelled and their share reaches the critical threshold, degraded
/// where it reaches the lower one, otherwise normal.
pub open spec fn fares(
    status: NetworkStatus,
    scheduled: i64,
    cancelled: i64,
    th: NetworkThresholds,
) -> bool {
    let enough = cancelled >= th.min_annulled;
    let critical = enough && reaches(scheduled, cancelled, th.critical_ratio);
    let degraded = enough && reaches(scheduled, cancelled, th.degraded_ratio);
    &&& status == NetworkStatus::Critical <==> critical
    &&& status == NetworkStatus::Degraded <==> !critical && degraded
    &&& status == NetworkStatus::Normal <==> !critical && !degraded
}

/// Whether a word is the one that is shown for a status.
pub open spec fn is_label(status: NetworkStatus, label: Seq<char>) -> bool {
    &&& status == NetworkStatus::Normal ==> label == "normale"@
    &&& status == NetworkStatus::Degraded ==> label == "dégradée"@
    &&& status == NetworkStatus::Critical ==> label == "critique"@
}

/// Whether a commune is told by its counts.
pub open spec fn tells_counts(
    c: CommuneStatus,
    scheduled: i64,
    cancelled: i64,
    th: NetworkThresholds,
) -> bool {
    &&& c.trips_scheduled == scheduled
    &&& c.trips_cancelled == cancelled
    &&& is_label(c.status, c.status_label@)
    &&& scheduled == 0 ==> c.status == NetworkStatus::Normal && c.cancelled_ratio.num == 0
        && c.cancelled_ratio.den == 1
    &&& scheduled > 0 ==> c.cancelled_ratio.num == cancelled && c.cancelled_ratio.den == scheduled
        && fares(c.status, scheduled, cancelled, th)
}

/// A commune fares by the share of its trips that are cancelled: critical or
/// degraded from the thresholds on, and only where enough trips are. Without trips
/// there is no signal.
pub proof fn a_commune_fares_by_its_share(
    commune: String,
    scheduled: i64,
    cancelled: i64,
    th: NetworkThresholds,
    r: CommuneStatus,
)
    requires
        th.critical_ratio.den != 0,
        th.degraded_ratio.den != 0,
        call_ensures(CommuneStatus::derive, (commune, scheduled, cancelled, th), r),
    ensures
        r.commune@ == commune@,
        tells_counts(r, scheduled, cancelled, th),
{
}

/// Counts that are there already are judged as new ones are: by the share that
/// comes with them.
pub proof fn given_counts_are_judged_by_their_share(
    c: CommuneStatus,
    th: NetworkThresholds,
    r: CommuneStatus,
)
    requires
        th.critical_ratio.den != 0,
        th.degraded_ratio.den != 0,
        c.trips_scheduled > 0 ==> c.cancelled_ratio == (Ratio {
            num: c.trips_cancelled,
            den: c.trips_scheduled,
        }),
        c.trips_scheduled == 0 ==> c.cancelled_ratio == (Ratio { num: 0, den: 1 }),
        call_ensures(derive_commune_status, (c, th), r),
    ensures
        r.commune == c.commune,
        tells_counts(r, c.trips_scheduled, c.trips_cancelled, th),
{
}

/// Whether `small` is the small letter of `capital`, one of `A` to `Z`.
pub open spec fn is_small_of(small: char, capital: char) -> bool {
    'A' as u32 <= capital as u32 <= 'Z' as u32 && small as u32 == capital as u32 + 32
}

/// Whether two texts are equal but for the case of the letters `A` to `Z`.
pub open spec fn equal_but_case(a: Seq<char>, b: Seq<char>) -> bool {
    &&& a.len() == b.len()
    &&& forall|i: int|
        0 <= i < a.len() ==> {
            ||| #[trigger] a[i] == b[i]
            ||| is_small_of(b[i], a[i])
            ||| is_small_of(a[i], b[i])
        }
}

proof fn lemma_same_letter(c: char, d: char)
    ensures
        crate::text::lower_ascii(c) == crate::text::lower_ascii(d) <==> (c == d || is_small_of(d, c)
            || is_small_of(c, d)),
{
    assert(c as u32 == c as int && d as u32 == d as int);
    if 'A' as u32 <= c as u32 <= 'Z' as u32 {
        assert(crate::text::lower_ascii(c) as int == c as int + 32);
    }
    if 'A' as u32 <= d as u32 <= 'Z' as u32 {
        assert(crate::text::lower_ascii(d) as int == d as int + 32);
    }
}

pub(crate) proof fn lemma_equal_but_case(a: Seq<char>, b: Seq<char>)
    ensures
        ascii_lowered(a) == ascii_lowered(b) <==> equal_but_case(a, b),
{
    let x = ascii_lowered(a);
    let y = ascii_lowered(b);
    if x == y {
        assert(x.len() == y.len());
        assert forall|i: int| 0 <= i < a.len() implies {
            ||| #[trigger] a[i] == b[i]
            ||| is_small_of(b[i], a[i])
            ||| is_small_of(a[i], b[i])
        } by {
            assert(x[i] == y[i]);
            lemma_same_letter(a[i], b[i]);
        }
    }
    if equal_but_case(a, b) {
        assert forall|i: int| 0 <= i < x.len() implies x[i] == y[i] by {
            assert(a[i] == b[i] || is_small_of(b[i], a[i]) || is_small_of(a[i], b[i]));
            lemma_same_letter(a[i], b[i]);
        }
        assert(x =~= y);
    }
}

/// Two texts are taken for equal where they differ in the case of `A` to `Z`
/// alone.
pub proof fn case_alone_makes_no_difference(a: &str, b: &str, r: bool)
    requires
        call_ensures(crate::text::same_ignoring_case, (a, b), r),
    ensures
        r <==> equal_but_case(a@, b@),
{
    lemma_equal_but_case(a@, b@);
}

/// Whether a commune is asked for: by its name in either case, or by none.
pub open spec fn is_asked(s: NetworkStats, filter: Option<&str>) -> bool {
    filter matches Some(f) ==> equal_but_case(s.commune@, f@)
}

/// Whether a commune is told as a row of the counts has it.
pub open spec fn tells_row(c: CommuneStatus, s: NetworkStats, th: NetworkThresholds) -> bool {
    c.commune@ == s.commune@ && tells_counts(c, s.trips_scheduled, s.trips_cancelled, th)
}

proof fn lemma_asked(s: NetworkStats, filter: Option<&str>)
    ensures
        NetworkService::asked(s, crate::domain::str_of(filter)) == is_asked(s, filter),
{
    if let Some(g) = filter {
        lemma_equal_but_case(s.commune@, g@);
    }
}

proof fn lemma_told_from(
    service: NetworkService,
    filter: Option<&str>,
    list: Seq<CommuneStatus>,
    n: int,
) -> (i: int)
    requires
        service.thresholds.critical_ratio.den != 0,
        service.thresholds.degraded_ratio.den != 0,
        service.tells_all(list, crate::domain::str_of(filter)),
        0 <= n < list.len(),
    ensures
        0 <= i < service.stats@.len(),
        is_asked(service.stats@[i], filter),
        tells_row(list[n], service.stats@[i], service.thresholds),
{
    let f = crate::domain::str_of(filter);
    let stats = service.stats@;
    let p = |s: NetworkStats| NetworkService::asked(s, f);
    let rows = stats.filter(p);
    crate::table::lemma_filter_items(stats, p);
    assert(p(rows[n]) && stats.contains(rows[n]));
    let i = choose|i: int| 0 <= i < stats.len() && stats[i] == rows[n];
    lemma_asked(stats[i], filter);
    assert(list[n].tells(
        rows[n].commune@,
        rows[n].trips_scheduled,
        rows[n].trips_cancelled,
        service.thresholds,
    ));
    i
}

proof fn lemma_told_in(
    service: NetworkService,
    filter: Option<&str>,
    list: Seq<CommuneStatus>,
    i: int,
) -> (n: int)
    requires
        service.thresholds.critical_ratio.den != 0,
        service.thresholds.degraded_ratio.den != 0,
        service.tells_all(list, crate::domain::str_of(filter)),
        0 <= i < service.stats@.len(),
        is_asked(service.stats@[i], filter),
    ensures
        0 <= n < list.len(),
        tells_row(list[n], service.stats@[i], service.thresholds),
{
    let f = crate::domain::str_of(filter);
    let stats = service.stats@;
    let p = |s: NetworkStats| NetworkService::asked(s, f);
    let rows = stats.filter(p);
    crate::table::lemma_filter_items(stats, p);
    lemma_asked(stats[i], filter);
    assert(p(stats[i]) && stats.contains(stats[i]));
    assert(rows.contains(stats[i]));
    let n = choose|n: int| 0 <= n < rows.len() && rows[n] == stats[i];
    assert(list[n].tells(
        rows[n].commune@,
        rows[n].trips_scheduled,
        rows[n].trips_cancelled,
        service.thresholds,
    ));
    n
}

/// Each commune that is told is one that was counted and asked for; the worst come
/// first: the share of cancelled trips never grows and, of equal shares, neither
/// does their number.
pub proof fn the_worst_communes_are_told_first(
    service: &NetworkService,
    filter: Option<&str>,
    r: Vec<CommuneStatus>,
    i: int,
    j: int,
) -> (k: int)
    requires
        service.thresholds.critical_ratio.den != 0,
        service.thresholds.degraded_ratio.den != 0,
        call_ensures(NetworkService::communes, (service, filter), r),
        0 <= i <= j < r@.len(),
    ensures
        0 <= k < service.stats@.len(),
        is_asked(service.stats@[k], filter),
        tells_row(r@[i], service.stats@[k], service.thresholds),
        r@[i].trips_scheduled > 0 && r@[j].trips_scheduled > 0 ==> {
            let left = r@[i].trips_cancelled * r@[j].trips_scheduled;
            let right = r@[j].trips_cancelled * r@[i].trips_scheduled;
            &&& left >= right
            &&& left == right ==> r@[i].trips_cancelled >= r@[j].trips_cancelled
        },
{
    let f = crate::domain::str_of(filter);
    let list = choose|list: Seq<CommuneStatus>| #[trigger]
        service.tells_all(list, f) && r@ == ordered(list, most_cancelled_first());
    crate::order::ordered_keeps_items(list, most_cancelled_first());
    crate::order::ordered_has_the_same_items(list, most_cancelled_first());
    if i < j {
        crate::network::the_worst_commune_comes_first(list, i, j);
    }
    assert(r@.contains(r@[i]));
    assert(list.contains(r@[i]));
    let n = choose|n: int| 0 <= n < list.len() && list[n] == r@[i];
    lemma_told_from(*service, filter, list, n)
}

/// Every commune that was counted and asked for is told.
pub proof fn every_commune_asked_for_is_told(
    service: &NetworkService,
    filter: Option<&str>,
    r: Vec<CommuneStatus>,
    k: int,
) -> (n: int)
    requires
        service.thresholds.critical_ratio.den != 0,
        service.thresholds.degraded_ratio.den != 0,
        call_ensures(NetworkService::communes, (service, filter), r),
        0 <= k < service.stats@.len(),
        is_asked(service.stats@[k], filter),
    ensures
        0 <= n < r@.len(),
        tells_row(r@[n], service.stats@[k], service.thresholds),
{
    let f = crate::domain::str_of(filter);
    let list = choose|list: Seq<CommuneStatus>| #[trigger]
        service.tells_all(list, f) && r@ == ordered(list, most_cancelled_first());
    crate::order::ordered_has_the_same_items(list, most_cancelled_first());
    let m = lemma_told_in(*service, filter, list, k);
    assert(list.contains(list[m]));
    assert(r@.contains(list[m]));
    choose|n: int| 0 <= n < r@.len() && r@[n] == list[m]
}

/// A question for one commune gives a row of that name in either case, and nothing
/// exactly where none was counted.
pub proof fn a_commune_is_found_in_either_case(
    service: &NetworkService,
    commune: &str,
    r: Option<CommuneStatus>,
    k: int,
) -> (i: int)
    requires
        service.thresholds.critical_ratio.den != 0,
        service.thresholds.degraded_ratio.den != 0,
        call_ensures(NetworkService::commune, (service, commune), r),
    ensures
        r matches Some(c) ==> 0 <= i < service.stats@.len() && equal_but_case(
            service.stats@[i].commune@,
            commune@,
        ) && tells_row(c, service.stats@[i], service.thresholds),
        0 <= k < service.stats@.len() && equal_but_case(service.stats@[k].commune@, commune@)
            ==> r is Some,
{
    let list = choose|list: Seq<CommuneStatus>| #[trigger]
        service.tells_all(list, Some(commune@)) && r == ({
            let sorted = ordered(list, most_cancelled_first());
            if sorted.len() > 0 {
                Some(sorted[0])
            } else {
                None
            }
        });
    let filter: Option<&str> = Some(commune);
    crate::order::ordered_keeps_items(list, most_cancelled_first());
    crate::order::ordered_has_the_same_items(list, most_cancelled_first());
    if 0 <= k < service.stats@.len() && equal_but_case(service.stats@[k].commune@, commune@) {
        lemma_told_in(*service, filter, list, k);
    }
    let sorted = ordered(list, most_cancelled_first());
    if sorted.len() > 0 {
        assert(sorted.contains(sorted[0]));
        assert(list.contains(sorted[0]));
        let n = choose|n: int| 0 <= n < list.len() && list[n] == sorted[0];
        lemma_told_from(*service, filter, list, n)
    } else {
        0
    }
}

/// Whether row `k` is the first that counts a commune, in either case.
pub open spec fn is_first_count(stats: Seq<NetworkStats>, k: int, commune: Seq<char>) -> bool {
    &&& 0 <= k < stats.len()
    &&& equal_but_case(stats[k].commune@, commune)
    &&& forall|j: int| 0 <= j < k ==> !equal_but_case((#[trigger] stats[j]).commune@, commune)
}

proof fn lemma_first_count(stats: Seq<NetworkStats>, commune: String)
    ensures
        forall|k: int|
            is_first_count(stats, k, commune@) ==> crate::status::counts_for(stats, commune@)
                == Some(#[trigger] stats[k]),
        (forall|k: int|
            0 <= k < stats.len() ==> !equal_but_case((#[trigger] stats[k]).commune@, commune@))
            ==> crate::status::counts_for(stats, commune@) is None,
{
    let p = |s: NetworkStats| ascii_lowered(s.commune@) == ascii_lowered(commune@);
    assert forall|s: NetworkStats| p(s) == equal_but_case((#[trigger] s.commune)@, commune@) by {
        lemma_equal_but_case(s.commune@, commune@);
    }
    assert forall|k: int| is_first_count(stats, k, commune@) implies crate::status::counts_for(
        stats,
        commune@,
    ) == Some(#[trigger] stats[k]) by {
        assert(p(stats[k]) == equal_but_case(stats[k].commune@, commune@));
        assert forall|j: int| 0 <= j < k implies !p(#[trigger] stats[j]) by {
            assert(p(stats[j]) == equal_but_case(stats[j].commune@, commune@));
        }
        crate::table::lemma_first_of_filter(stats, p, k);
    }
    if forall|k: int|
        0 <= k < stats.len() ==> !equal_but_case((#[trigger] stats[k]).commune@, commune@) {
        assert forall|j: int| 0 <= j < stats.len() implies !p(#[trigger] stats[j]) by {
            assert(p(stats[j]) == equal_but_case(stats[j].commune@, commune@));
        }
        crate::table::lemma_filter_all(stats, p);
    }
}

/// Around a stop the network fares as its commune does, by the first row that
/// counts it; nothing is told where the stop has no commune or none is counted.
pub proof fn a_stop_is_told_how_its_commune_fares(
    service: &StatusService,
    stop: &StopRow,
    commune: Option<String>,
    r: Option<NetworkContext>,
    k: int,
)
    requires
        service.network.critical_ratio.den != 0,
        service.network.degraded_ratio.den != 0,
        call_ensures(commune_of_stop, (stop,), commune),
        call_ensures(StatusService::network_context, (service, stop), r),
    ensures
        commune is None ==> r is None,
        commune matches Some(c) ==> {
            &&& (forall|j: int|
                0 <= j < service.stats@.len() ==> !equal_but_case(
                    (#[trigger] service.stats@[j]).commune@,
                    c@,
                )) ==> r is None
            &&& is_first_count(service.stats@, k, c@) && service.stats@[k].trips_scheduled >= 0
                ==> (r matches Some(n) && tells_context(
                n,
                c@,
                service.stats@[k],
                service.network,
            ))
        },
{
    if let Some(c) = commune {
        lemma_first_count(service.stats@, c);
        if is_first_count(service.stats@, k, c@) {
            let s = service.stats@[k];
            assert(crate::status::counts_for(service.stats@, c@) == Some(s));
            if s.trips_scheduled > 0 {
                let status = crate::status::status_by_share(
                    s.trips_scheduled,
                    s.trips_cancelled,
                    crate::status::share_in(s),
                    service.network,
                );
                assert(fares(status, s.trips_scheduled, s.trips_cancelled, service.network));
            }
        }
    }
}

/// Whether `n` tells how a commune fares by a row of its counts.
pub open spec fn tells_context(
    n: NetworkContext,
    commune: Seq<char>,
    s: NetworkStats,
    th: NetworkThresholds,
) -> bool {
    &&& n.commune@ == commune
    &&& n.trips_scheduled == s.trips_scheduled
    &&& n.trips_cancelled == s.trips_cancelled
    &&& s.trips_scheduled == 0 ==> n.status@ == "normal"@ && n.status_label@ == "normale"@
        && n.cancelled_ratio.num == 0 && n.cancelled_ratio.den == 1
    &&& s.trips_scheduled > 0 ==> n.cancelled_ratio.num == s.trips_cancelled
        && n.cancelled_ratio.den == s.trips_scheduled && exists|status: NetworkStatus| #[trigger]
        fares(status, s.trips_scheduled, s.trips_cancelled, th) && is_label(
            status,
            n.status_label@,
        ) && (status == NetworkStatus::Normal ==> n.status@ == "normal"@) && (status
            == NetworkStatus::Degraded ==> n.status@ == "degraded"@) && (status
            == NetworkStatus::Critical ==> n.status@ == "critical"@)
}

/// A commune that is asked for is told by the first row that counts it, whatever the
/// case; nothing is told where none does.
pub proof fn a_commune_asked_for_is_told_by_its_counts(
    service: &StatusService,
    commune: &str,
    name: String,
    r: Option<CommuneStatus>,
    k: int,
)
    requires
        service.network.critical_ratio.den != 0,
        service.network.degraded_ratio.den != 0,
        call_ensures(StatusService::commune_stats, (service, commune), r),
        name@ == commune@,
    ensures
        (forall|j: int|
            0 <= j < service.stats@.len() ==> !equal_but_case(
                (#[trigger] service.stats@[j]).commune@,
                commune@,
            )) ==> r is None,
        is_first_count(service.stats@, k, commune@) && service.stats@[k].trips_scheduled >= 0 ==> (
        r matches Some(c) && c.commune@ == commune@ && tells_counts(
            c,
            service.stats@[k].trips_scheduled,
            service.stats@[k].trips_cancelled,
            service.network,
        )),
{
    lemma_first_count(service.stats@, name);
    if is_first_count(service.stats@, k, commune@) {
        assert(crate::status::counts_for(service.stats@, commune@) == Some(service.stats@[k]));
    }
}

} // verus!
