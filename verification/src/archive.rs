//! The append-only archive of the real-time feeds.
//!
//! A feed is overwritten within half a minute: what is not captured is lost for
//! good. The archive holds the rows of three tables, each with its key, as
//! plain values.

use crate::table::{all_written, is_key, keyed, write_row};
use crate::text::same_text;
use vstd::prelude::*;

verus! {

/// A departure as the `trip-update` feed saw it.
///
/// `scheduled_ms` is `predicted_ms - delay_s * 1000`.
#[derive(Debug, PartialEq, Eq)]
pub struct Observation {
    pub feed_ts: i64,
    pub captured_at: i64,
    pub trip_id: String,
    pub route_id: Option<String>,
    pub stop_id: String,
    pub stop_sequence: i64,
    pub scheduled_ms: Option<i64>,
    pub predicted_ms: Option<i64>,
    pub delay_s: Option<i64>,
    pub schedule_relationship: i64,
}

impl Clone for Observation {
    fn clone(&self) -> (r: Self)
        ensures
            r == *self,
    {
        Observation {
            feed_ts: self.feed_ts,
            captured_at: self.captured_at,
            trip_id: self.trip_id.clone(),
            route_id: self.route_id.clone(),
            stop_id: self.stop_id.clone(),
            stop_sequence: self.stop_sequence,
            scheduled_ms: self.scheduled_ms,
            predicted_ms: self.predicted_ms,
            delay_s: self.delay_s,
            schedule_relationship: self.schedule_relationship,
        }
    }
}

/// A service alert of the `alert` feed.
#[derive(Debug, PartialEq, Eq)]
pub struct AlertRecord {
    pub feed_ts: i64,
    pub captured_at: i64,
    pub alert_id: String,
    pub agency_id: Option<String>,
    pub effect: Option<i64>,
    pub severity: Option<i64>,
    pub cause: Option<i64>,
    pub route_ids: String,
    pub stop_ids: String,
    pub header_fr: Option<String>,
    pub description_fr: Option<String>,
    pub active_from: Option<i64>,
    pub active_to: Option<i64>,
}

impl Clone for AlertRecord {
    fn clone(&self) -> (r: Self)
        ensures
            r == *self,
    {
        AlertRecord {
            feed_ts: self.feed_ts,
            captured_at: self.captured_at,
            alert_id: self.alert_id.clone(),
            agency_id: self.agency_id.clone(),
            effect: self.effect,
            severity: self.severity,
            cause: self.cause,
            route_ids: self.route_ids.clone(),
            stop_ids: self.stop_ids.clone(),
            header_fr: self.header_fr.clone(),
            description_fr: self.description_fr.clone(),
            active_from: self.active_from,
            active_to: self.active_to,
        }
    }
}

/// The link between an alert and a trip: a cancellation names the trip it is
/// about.
#[derive(Debug, PartialEq, Eq)]
pub struct AlertTrip {
    pub feed_ts: i64,
    pub alert_id: String,
    pub trip_id: String,
    pub start_date: Option<String>,
}

impl Clone for AlertTrip {
    fn clone(&self) -> (r: Self)
        ensures
            r == *self,
    {
        AlertTrip {
            feed_ts: self.feed_ts,
            alert_id: self.alert_id.clone(),
            trip_id: self.trip_id.clone(),
            start_date: self.start_date.clone(),
        }
    }
}

/// The key of an observation: feed, trip and place in the trip.
pub open spec fn same_observation() -> spec_fn(Observation, Observation) -> bool {
    |a: Observation, b: Observation|
        a.feed_ts == b.feed_ts && a.trip_id@ == b.trip_id@ && a.stop_sequence == b.stop_sequence
}

/// The key of an alert: feed and alert.
pub open spec fn same_alert() -> spec_fn(AlertRecord, AlertRecord) -> bool {
    |a: AlertRecord, b: AlertRecord| a.feed_ts == b.feed_ts && a.alert_id@ == b.alert_id@
}

/// The key of a link between an alert and a trip: feed, alert and trip.
pub open spec fn same_alert_trip() -> spec_fn(AlertTrip, AlertTrip) -> bool {
    |a: AlertTrip, b: AlertTrip|
        a.feed_ts == b.feed_ts && a.alert_id@ == b.alert_id@ && a.trip_id@ == b.trip_id@
}

fn is_same_observation(a: &Observation, b: &Observation) -> (r: bool)
    ensures
        r == same_observation()(*a, *b),
{
    a.feed_ts == b.feed_ts && same_text(a.trip_id.as_str(), b.trip_id.as_str()) && a.stop_sequence
        == b.stop_sequence
}

fn is_same_alert(a: &AlertRecord, b: &AlertRecord) -> (r: bool)
    ensures
        r == same_alert()(*a, *b),
{
    a.feed_ts == b.feed_ts && same_text(a.alert_id.as_str(), b.alert_id.as_str())
}

fn is_same_alert_trip(a: &AlertTrip, b: &AlertTrip) -> (r: bool)
    ensures
        r == same_alert_trip()(*a, *b),
{
    a.feed_ts == b.feed_ts && same_text(a.alert_id.as_str(), b.alert_id.as_str()) && same_text(
        a.trip_id.as_str(),
        b.trip_id.as_str(),
    )
}

/// The three ways to tell rows apart are keys.
pub proof fn archive_keys_are_keys()
    ensures
        is_key(same_observation()),
        is_key(same_alert()),
        is_key(same_alert_trip()),
{
}

/// The largest of `ts`, if there is one.
pub open spec fn newest(ts: Seq<i64>) -> Option<i64>
    decreases ts.len(),
{
    if ts.len() == 0 {
        None
    } else {
        newer(newest(ts.drop_last()), Some(ts.last()))
    }
}

/// The larger of two timestamps, where there are two.
pub open spec fn newer(a: Option<i64>, b: Option<i64>) -> Option<i64> {
    match (a, b) {
        (Some(x), Some(y)) => Some(
            if x < y {
                y
            } else {
                x
            },
        ),
        (Some(x), None) => Some(x),
        (None, y) => y,
    }
}

/// The larger of two timestamps, where there are two.
fn newer_of(a: Option<i64>, b: Option<i64>) -> (r: Option<i64>)
    ensures
        r == newer(a, b),
{
    match (a, b) {
        (Some(x), Some(y)) => if x < y {
            Some(y)
        } else {
            Some(x)
        },
        (Some(x), None) => Some(x),
        (None, y) => y,
    }
}

/// `newest` is one of the timestamps, and none is larger.
pub proof fn newest_is_the_largest(ts: Seq<i64>)
    ensures
        newest(ts) is None <==> ts.len() == 0,
        newest(ts) matches Some(t) ==> ts.contains(t) && forall|i: int|
            0 <= i < ts.len() ==> #[trigger] ts[i] <= t,
    decreases ts.len(),
{
    if ts.len() > 0 {
        let p = ts.drop_last();
        newest_is_the_largest(p);
        assert forall|i: int| 0 <= i < p.len() implies #[trigger] ts[i] == p[i] by {}
        assert(ts[ts.len() - 1] == ts.last());
        if let Some(t) = newest(p) {
            let k = choose|k: int| 0 <= k < p.len() && p[k] == t;
            assert(ts[k] == t);
        }
    }
}

proof fn lemma_newest_concat(a: Seq<i64>, b: Seq<i64>)
    ensures
        newest(a + b) == newer(newest(a), newest(b)),
    decreases b.len(),
{
    if b.len() == 0 {
        assert(a + b =~= a);
    } else {
        lemma_newest_concat(a, b.drop_last());
        assert((a + b).drop_last() =~= a + b.drop_last());
        assert((a + b).last() == b.last());
    }
}

/// The archive: every observation, alert and link that was captured, one row
/// for each key.
pub struct Archive {
    pub observations: Vec<Observation>,
    pub alerts: Vec<AlertRecord>,
    pub alert_trips: Vec<AlertTrip>,
}

impl Archive {
    /// Whether each table holds one row for each key.
    pub open spec fn wf(self) -> bool {
        &&& keyed(self.observations@, same_observation())
        &&& keyed(self.alerts@, same_alert())
        &&& keyed(self.alert_trips@, same_alert_trip())
    }

    /// The feed timestamps of the observations.
    pub open spec fn observation_stamps(self) -> Seq<i64> {
        self.observations@.map_values(|o: Observation| o.feed_ts)
    }

    /// The feed timestamps of the alerts.
    pub open spec fn alert_stamps(self) -> Seq<i64> {
        self.alerts@.map_values(|a: AlertRecord| a.feed_ts)
    }

    /// The feed timestamps of the links between alerts and trips.
    pub open spec fn alert_trip_stamps(self) -> Seq<i64> {
        self.alert_trips@.map_values(|t: AlertTrip| t.feed_ts)
    }

    /// An empty archive.
    pub fn open_in_memory() -> (r: Self)
        ensures
            r.wf(),
            r.observations@.len() == 0,
            r.alerts@.len() == 0,
            r.alert_trips@.len() == 0,
    {
        Archive { observations: Vec::new(), alerts: Vec::new(), alert_trips: Vec::new() }
    }

    /// An archive of rows that were stored before: the rows written one after
    /// the other into an empty one.
    pub fn open(
        observations: &[Observation],
        alerts: &[AlertRecord],
        alert_trips: &[AlertTrip],
    ) -> (r: Self)
        ensures
            r.wf(),
            r.observations@ == all_written(
                Seq::<Observation>::empty(),
                observations@,
                same_observation(),
            ),
            r.alerts@ == all_written(Seq::<AlertRecord>::empty(), alerts@, same_alert()),
            r.alert_trips@ == all_written(
                Seq::<AlertTrip>::empty(),
                alert_trips@,
                same_alert_trip(),
            ),
    {
        let mut archive = Archive::open_in_memory();
        assert(archive.observations@ =~= Seq::<Observation>::empty());
        assert(archive.alerts@ =~= Seq::<AlertRecord>::empty());
        assert(archive.alert_trips@ =~= Seq::<AlertTrip>::empty());
        archive.insert_observations(observations);
        archive.insert_alerts(alerts);
        archive.insert_alert_trips(alert_trips);
        archive
    }

    /// Writes the observations, and says how many were given. A key is written
    /// once: a later row takes the place of an earlier one.
    pub fn insert_observations(&mut self, rows: &[Observation]) -> (r: usize)
        requires
            old(self).wf(),
        ensures
            final(self).wf(),
            r == rows@.len(),
            final(self).observations@ == all_written(
                old(self).observations@,
                rows@,
                same_observation(),
            ),
            final(self).alerts@ == old(self).alerts@,
            final(self).alert_trips@ == old(self).alert_trips@,
    {
        let ghost before = self.observations@;
        let mut i: usize = 0;
        assert(rows@.take(0) =~= Seq::<Observation>::empty());
        while i < rows.len()
            invariant
                0 <= i <= rows@.len(),
                self.observations@ == all_written(
                    before,
                    rows@.take(i as int),
                    same_observation(),
                ),
                self.alerts@ == old(self).alerts@,
                self.alert_trips@ == old(self).alert_trips@,
            decreases rows@.len() - i,
        {
            proof {
                assert(rows@.take(i + 1).drop_last() =~= rows@.take(i as int));
                assert(rows@.take(i + 1).last() == rows@[i as int]);
            }
            write_row(
                &mut self.observations,
                rows[i].clone(),
                is_same_observation,
                Ghost(same_observation()),
            );
            i = i + 1;
        }
        proof {
            assert(rows@.take(rows@.len() as int) =~= rows@);
            archive_keys_are_keys();
            crate::table::all_written_is_keyed(before, rows@, same_observation());
        }
        rows.len()
    }

    /// Writes the alerts, and says how many were given. A key is written once:
    /// a later row takes the place of an earlier one.
    pub fn insert_alerts(&mut self, rows: &[AlertRecord]) -> (r: usize)
        requires
            old(self).wf(),
        ensures
            final(self).wf(),
            r == rows@.len(),
            final(self).alerts@ == all_written(old(self).alerts@, rows@, same_alert()),
            final(self).observations@ == old(self).observations@,
            final(self).alert_trips@ == old(self).alert_trips@,
    {
        let ghost before = self.alerts@;
        let mut i: usize = 0;
        assert(rows@.take(0) =~= Seq::<AlertRecord>::empty());
        while i < rows.len()
            invariant
                0 <= i <= rows@.len(),
                self.alerts@ == all_written(before, rows@.take(i as int), same_alert()),
                self.observations@ == old(self).observations@,
                self.alert_trips@ == old(self).alert_trips@,
            decreases rows@.len() - i,
        {
            proof {
                assert(rows@.take(i + 1).drop_last() =~= rows@.take(i as int));
                assert(rows@.take(i + 1).last() == rows@[i as int]);
            }
            write_row(
                &mut self.alerts,
                rows[i].clone(),
                is_same_alert,
                Ghost(same_alert()),
            );
            i = i + 1;
        }
        proof {
            assert(rows@.take(rows@.len() as int) =~= rows@);
            archive_keys_are_keys();
            crate::table::all_written_is_keyed(before, rows@, same_alert());
        }
        rows.len()
    }

    /// Writes the links between alerts and trips, and says how many were given.
    /// A key is written once: a later row takes the place of an earlier one.
    pub fn insert_alert_trips(&mut self, rows: &[AlertTrip]) -> (r: usize)
        requires
            old(self).wf(),
        ensures
            final(self).wf(),
            r == rows@.len(),
            final(self).alert_trips@ == all_written(
                old(self).alert_trips@,
                rows@,
                same_alert_trip(),
            ),
            final(self).observations@ == old(self).observations@,
            final(self).alerts@ == old(self).alerts@,
    {
        let ghost before = self.alert_trips@;
        let mut i: usize = 0;
        assert(rows@.take(0) =~= Seq::<AlertTrip>::empty());
        while i < rows.len()
            invariant
                0 <= i <= rows@.len(),
                self.alert_trips@ == all_written(before, rows@.take(i as int), same_alert_trip()),
                self.observations@ == old(self).observations@,
                self.alerts@ == old(self).alerts@,
            decreases rows@.len() - i,
        {
            proof {
                assert(rows@.take(i + 1).drop_last() =~= rows@.take(i as int));
                assert(rows@.take(i + 1).last() == rows@[i as int]);
            }
            write_row(
                &mut self.alert_trips,
                rows[i].clone(),
                is_same_alert_trip,
                Ghost(same_alert_trip()),
            );
            i = i + 1;
        }
        proof {
            assert(rows@.take(rows@.len() as int) =~= rows@);
            archive_keys_are_keys();
            crate::table::all_written_is_keyed(before, rows@, same_alert_trip());
        }
        rows.len()
    }

    /// How many links between alerts and trips the archive holds.
    pub fn alert_trip_count(&self) -> (r: usize)
        ensures
            r == self.alert_trips@.len(),
    {
        self.alert_trips.len()
    }

    /// How many observations the archive holds.
    pub fn observation_count(&self) -> (r: usize)
        ensures
            r == self.observations@.len(),
    {
        self.observations.len()
    }

    /// How many alerts the archive holds.
    pub fn alert_count(&self) -> (r: usize)
        ensures
            r == self.alerts@.len(),
    {
        self.alerts.len()
    }

    /// The newest feed timestamp among the observations.
    pub fn newest_observation(&self) -> (r: Option<i64>)
        ensures
            r == newest(self.observation_stamps()),
    {
        let ghost ts = self.observation_stamps();
        let mut best: Option<i64> = None;
        let mut i: usize = 0;
        assert(ts.take(0) =~= Seq::<i64>::empty());
        while i < self.observations.len()
            invariant
                0 <= i <= self.observations@.len(),
                ts == self.observation_stamps(),
                best == newest(ts.take(i as int)),
            decreases self.observations@.len() - i,
        {
            proof {
                assert(ts.take(i + 1).drop_last() =~= ts.take(i as int));
                assert(ts.take(i + 1).last() == self.observations@[i as int].feed_ts);
            }
            best = newer_of(best, Some(self.observations[i].feed_ts));
            i = i + 1;
        }
        assert(ts.take(ts.len() as int) =~= ts);
        best
    }

    /// The newest feed timestamp among the alerts.
    pub fn newest_alert(&self) -> (r: Option<i64>)
        ensures
            r == newest(self.alert_stamps()),
    {
        let ghost ts = self.alert_stamps();
        let mut best: Option<i64> = None;
        let mut i: usize = 0;
        assert(ts.take(0) =~= Seq::<i64>::empty());
        while i < self.alerts.len()
            invariant
                0 <= i <= self.alerts@.len(),
                ts == self.alert_stamps(),
                best == newest(ts.take(i as int)),
            decreases self.alerts@.len() - i,
        {
            proof {
                assert(ts.take(i + 1).drop_last() =~= ts.take(i as int));
                assert(ts.take(i + 1).last() == self.alerts@[i as int].feed_ts);
            }
            best = newer_of(best, Some(self.alerts[i].feed_ts));
            i = i + 1;
        }
        assert(ts.take(ts.len() as int) =~= ts);
        best
    }

    /// The newest feed timestamp among the links between alerts and trips.
    fn newest_alert_trip(&self) -> (r: Option<i64>)
        ensures
            r == newest(self.alert_trip_stamps()),
    {
        let ghost ts = self.alert_trip_stamps();
        let mut best: Option<i64> = None;
        let mut i: usize = 0;
        assert(ts.take(0) =~= Seq::<i64>::empty());
        while i < self.alert_trips.len()
            invariant
                0 <= i <= self.alert_trips@.len(),
                ts == self.alert_trip_stamps(),
                best == newest(ts.take(i as int)),
            decreases self.alert_trips@.len() - i,
        {
            proof {
                assert(ts.take(i + 1).drop_last() =~= ts.take(i as int));
                assert(ts.take(i + 1).last() == self.alert_trips@[i as int].feed_ts);
            }
            best = newer_of(best, Some(self.alert_trips[i].feed_ts));
            i = i + 1;
        }
        assert(ts.take(ts.len() as int) =~= ts);
        best
    }

    /// The newest feed timestamp that was seen, over all tables.
    pub fn last_feed_ts(&self) -> (r: Option<i64>)
        ensures
            r == newest(
                self.observation_stamps() + self.alert_stamps() + self.alert_trip_stamps(),
            ),
    {
        proof {
            lemma_newest_concat(self.observation_stamps(), self.alert_stamps());
            lemma_newest_concat(
                self.observation_stamps() + self.alert_stamps(),
                self.alert_trip_stamps(),
            );
        }
        newer_of(newer_of(self.newest_observation(), self.newest_alert()), self.newest_alert_trip())
    }
}

/// Capturing the same observations again leaves the archive as it is.
pub proof fn capturing_again_changes_nothing(held: Seq<Observation>, rows: Seq<Observation>)
    ensures
        all_written(all_written(held, rows, same_observation()), rows, same_observation())
            == all_written(held, rows, same_observation()),
{
    archive_keys_are_keys();
    crate::table::writing_again_changes_nothing(held, rows, same_observation());
}

/// An observation whose key is new adds exactly one row and touches no other.
pub proof fn a_new_key_adds_one_row(held: Seq<Observation>, row: Observation)
    requires
        !crate::table::has_key(held, row, same_observation()),
    ensures
        all_written(held, seq![row], same_observation()) == held.push(row),
{
    let same = same_observation();
    let p = |r: Observation| !same(r, row);
    assert(seq![row].drop_last() =~= Seq::<Observation>::empty());
    assert(all_written(held, Seq::<Observation>::empty(), same) == held);
    crate::table::lemma_filter_all(held, p);
}

} // verus!
