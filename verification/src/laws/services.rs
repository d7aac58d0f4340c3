//! Laws of the calendar of services: which services run on a date.

use crate::calendar::{compact_date, day_number, is_date, weekday};
use crate::gtfs::{weekday_column, GtfsError};
use crate::laws::stops::has_entry;
use crate::loader::CalendarRow;
use crate::text::text_lt;
use crate::timetable::{has_exception, same_service, GtfsRepo};
use vstd::prelude::*;

verus! {

/// Whether an exception of that type stands for a service on a date.
pub open spec fn is_excepted(
    repo: GtfsRepo,
    service_id: Seq<char>,
    date: Seq<char>,
    exception_type: int,
) -> bool {
    exists|k: int|
        0 <= k < repo.calendar_dates@.len() && (
        #[trigger] repo.calendar_dates@[k]).service_id@ == service_id
            && repo.calendar_dates@[k].date@ == date && repo.calendar_dates@[k].exception_type
            == exception_type
}

/// Whether a date lies from the start to the end of a calendar, as texts.
pub open spec fn is_between(c: CalendarRow, date: Seq<char>) -> bool {
    !text_lt(date, c.start_date@) && !text_lt(c.end_date@, date)
}

pub(crate) proof fn lemma_listed(repo: GtfsRepo, date: Seq<char>, day: int, i: int)
    requires
        repo.wf(),
        0 <= i < repo.calendar@.len(),
    ensures
        has_entry(repo.services_on(date, day), repo.calendar@[i].service_id@) <==> (
        repo.calendar@[i].covers(date, day) || is_excepted(
            repo,
            repo.calendar@[i].service_id@,
            date,
            1,
        )) && !is_excepted(repo, repo.calendar@[i].service_id@, date, 2),
{
    let p = |c: CalendarRow| repo.runs(c, date, day);
    let c = repo.calendar@[i];
    let kept = repo.calendar@.filter(p);
    let listed = repo.services_on(date, day);
    crate::table::lemma_filter_items(repo.calendar@, p);
    assert(repo.runs(c, date, day) <==> (c.covers(date, day) || is_excepted(
        repo,
        c.service_id@,
        date,
        1,
    )) && !is_excepted(repo, c.service_id@, date, 2)) by {
        assert(has_exception(repo.calendar_dates@, c.service_id@, date, 1) == is_excepted(
            repo,
            c.service_id@,
            date,
            1,
        ));
        assert(has_exception(repo.calendar_dates@, c.service_id@, date, 2) == is_excepted(
            repo,
            c.service_id@,
            date,
            2,
        ));
    }
    if repo.runs(c, date, day) {
        assert(repo.calendar@.contains(c) && p(c));
        assert(kept.contains(c));
        let k = choose|k: int| 0 <= k < kept.len() && kept[k] == c;
        assert(listed[k]@ == c.service_id@);
    }
    if has_entry(listed, c.service_id@) {
        let k = choose|k: int| 0 <= k < listed.len() && (#[trigger] listed[k])@ == c.service_id@;
        assert(p(kept[k]) && repo.calendar@.contains(kept[k]));
        let j = choose|j: int| 0 <= j < repo.calendar@.len() && repo.calendar@[j] == kept[k];
        if j != i {
            assert(same_service()(repo.calendar@[j], repo.calendar@[i]));
            if j < i {
                assert(!same_service()(repo.calendar@[j], repo.calendar@[i]));
            } else {
                assert(!same_service()(repo.calendar@[i], repo.calendar@[j]));
            }
        }
    }
}

/// On a date without exceptions for it, a service of the calendar is listed
/// exactly when the date lies from its start to its end and the field that bears
/// the name of the weekday is 1: 0 goes by Monday, 1 by Tuesday, and so on to 6,
/// which goes by Sunday.
pub proof fn the_field_of_the_weekday_decides(
    repo: &GtfsRepo,
    date: &str,
    day: u32,
    listed: Vec<String>,
    i: int,
)
    requires
        repo.wf(),
        call_ensures(GtfsRepo::services_of, (repo, date, day), listed),
        0 <= i < repo.calendar@.len(),
        !is_excepted(*repo, repo.calendar@[i].service_id@, date@, 1),
        !is_excepted(*repo, repo.calendar@[i].service_id@, date@, 2),
    ensures
        ({
            let c = repo.calendar@[i];
            let runs = has_entry(listed@, c.service_id@);
            let between = is_between(c, date@);
            &&& day == 0 ==> (runs <==> between && c.monday == 1)
            &&& day == 1 ==> (runs <==> between && c.tuesday == 1)
            &&& day == 2 ==> (runs <==> between && c.wednesday == 1)
            &&& day == 3 ==> (runs <==> between && c.thursday == 1)
            &&& day == 4 ==> (runs <==> between && c.friday == 1)
            &&& day == 5 ==> (runs <==> between && c.saturday == 1)
            &&& day == 6 ==> (runs <==> between && c.sunday == 1)
        }),
{
    lemma_listed(*repo, date@, day as int, i);
}

/// For a date `YYYYMMDD` on which a service has no exception: the service is
/// listed exactly when the date lies from its start to its end and the field that
/// bears the name of the date's weekday is 1; that name is the one of the
/// weekday's column.
pub proof fn a_date_goes_by_the_field_of_its_weekday(
    repo: &GtfsRepo,
    y: int,
    m: int,
    d: int,
    date: &str,
    r: Result<Vec<String>, GtfsError>,
    column: Result<&'static str, GtfsError>,
    i: int,
)
    requires
        repo.wf(),
        is_date(y, m, d),
        0 <= y <= 9999,
        date@ == compact_date(y, m, d),
        call_ensures(GtfsRepo::active_services, (repo, date), r),
        call_ensures(weekday_column, (date,), column),
        0 <= i < repo.calendar@.len(),
        !is_excepted(*repo, repo.calendar@[i].service_id@, date@, 1),
        !is_excepted(*repo, repo.calendar@[i].service_id@, date@, 2),
    ensures
        r is Ok,
        column is Ok,
        ({
            let c = repo.calendar@[i];
            let runs = has_entry(r->Ok_0@, c.service_id@);
            let between = is_between(c, date@);
            let day = weekday(y, m, d);
            let name = column->Ok_0@;
            &&& day == 0 ==> name == "monday"@ && (runs <==> between && c.monday == 1)
            &&& day == 1 ==> name == "tuesday"@ && (runs <==> between && c.tuesday == 1)
            &&& day == 2 ==> name == "wednesday"@ && (runs <==> between && c.wednesday == 1)
            &&& day == 3 ==> name == "thursday"@ && (runs <==> between && c.thursday == 1)
            &&& day == 4 ==> name == "friday"@ && (runs <==> between && c.friday == 1)
            &&& day == 5 ==> name == "saturday"@ && (runs <==> between && c.saturday == 1)
            &&& day == 6 ==> name == "sunday"@ && (runs <==> between && c.sunday == 1)
        }),
{
    assert(crate::gtfs::weekday_in(date@) == Some(weekday(y, m, d)));
    lemma_listed(*repo, date@, weekday(y, m, d), i);
}

/// A calendar that starts and ends on dates written `YYYYMMDD` covers the days
/// from the first to the last, both of them included.
pub proof fn a_calendar_covers_its_first_and_last_day(
    c: CalendarRow,
    y: int,
    m: int,
    d: int,
    first: (int, int, int),
    last: (int, int, int),
)
    requires
        is_date(y, m, d),
        is_date(first.0, first.1, first.2),
        is_date(last.0, last.1, last.2),
        0 <= y <= 9999,
        0 <= first.0 <= 9999,
        0 <= last.0 <= 9999,
        c.start_date@ == compact_date(first.0, first.1, first.2),
        c.end_date@ == compact_date(last.0, last.1, last.2),
    ensures
        is_between(c, compact_date(y, m, d)) <==> day_number(first.0, first.1, first.2)
            <= day_number(y, m, d) <= day_number(last.0, last.1, last.2),
{
    crate::calendar::compact_dates_sort_as_their_days(y, m, d, first.0, first.1, first.2);
    crate::calendar::compact_dates_sort_as_their_days(last.0, last.1, last.2, y, m, d);
}

/// An exception of type 2 takes a date from a service, whatever else is said; one
/// of type 1 adds it, where none takes it away.
pub proof fn exceptions_decide_before_the_calendar(
    repo: &GtfsRepo,
    date: &str,
    r: Result<Vec<String>, GtfsError>,
    i: int,
)
    requires
        repo.wf(),
        call_ensures(GtfsRepo::active_services, (repo, date), r),
        r is Ok,
        0 <= i < repo.calendar@.len(),
    ensures
        is_excepted(*repo, repo.calendar@[i].service_id@, date@, 2) ==> !has_entry(
            r->Ok_0@,
            repo.calendar@[i].service_id@,
        ),
        is_excepted(*repo, repo.calendar@[i].service_id@, date@, 1) && !is_excepted(
            *repo,
            repo.calendar@[i].service_id@,
            date@,
            2,
        ) ==> has_entry(r->Ok_0@, repo.calendar@[i].service_id@),
{
    lemma_listed(*repo, date@, crate::gtfs::weekday_in(date@)->0, i);
}

/// Only services of the calendar are listed, each once.
pub proof fn only_services_of_the_calendar_are_listed(
    repo: &GtfsRepo,
    date: &str,
    r: Result<Vec<String>, GtfsError>,
    k: int,
) -> (i: int)
    requires
        call_ensures(GtfsRepo::active_services, (repo, date), r),
        r is Ok,
        0 <= k < r->Ok_0@.len(),
    ensures
        0 <= i < repo.calendar@.len(),
        r->Ok_0@[k]@ == repo.calendar@[i].service_id@,
        repo.wf() ==> forall|j: int|
            0 <= j < r->Ok_0@.len() && j != k ==> (#[trigger] r->Ok_0@[j])@ != r->Ok_0@[k]@,
{
    let day = crate::gtfs::weekday_in(date@)->0;
    let p = |c: CalendarRow| repo.runs(c, date@, day);
    let kept = repo.calendar@.filter(p);
    crate::table::lemma_filter_items(repo.calendar@, p);
    assert(p(kept[k]) && repo.calendar@.contains(kept[k]));
    if repo.wf() {
        assert forall|j: int| 0 <= j < r->Ok_0@.len() && j != k implies (
        #[trigger] r->Ok_0@[j])@ != r->Ok_0@[k]@ by {
            if j < k {
                crate::timetable::services_are_listed_once(*repo, date@, day, j, k);
            } else {
                crate::timetable::services_are_listed_once(*repo, date@, day, k, j);
            }
        }
    }
    choose|i: int| 0 <= i < repo.calendar@.len() && repo.calendar@[i] == kept[k]
}

/// A text that is no date has no services and no column: both tell the text and why
/// it is refused.
pub proof fn what_is_no_date_is_refused(
    repo: &GtfsRepo,
    date: &str,
    r: Result<Vec<String>, GtfsError>,
    column: Result<&'static str, GtfsError>,
)
    requires
        call_ensures(GtfsRepo::active_services, (repo, date), r),
        call_ensures(weekday_column, (date,), column),
    ensures
        r is Ok <==> crate::calendar::parsed_date(date@) is Ok,
        column is Ok <==> crate::calendar::parsed_date(date@) is Ok,
        crate::calendar::parsed_date(date@) matches Err(why) ==> {
            &&& r matches Err(GtfsError::InvalidDate(t, m)) && t@ == date@ && m@ == why
            &&& column matches Err(GtfsError::InvalidDate(t, m)) && t@ == date@ && m@ == why
        },
{
}

} // verus!
