//! Arrival records: one predicted vehicle arrival at a stop, the identity of
//! a monitored line at a stop, and the grouping of fetched journeys by that
//! identity.

use vstd::prelude::*;
use vstd::string::StringExecFns;
use crate::clock;
use crate::clock::MS_BOUND;
use crate::grouping;

verus! {

/// A vehicle position; either coordinate may be missing (empty).
pub struct Location {
    pub longitude: String,
    pub latitude: String,
}

pub open spec fn location_empty(l: &Location) -> bool {
    l.longitude@.len() == 0 || l.latitude@.len() == 0
}

impl Location {
    pub fn is_empty(&self) -> (r: bool)
        ensures
            r == location_empty(self),
    {
        self.longitude.as_str().is_empty() || self.latitude.as_str().is_empty()
    }
}

/// The predicted call at the monitored stop.
pub struct MonitoredCall {
    pub stop_point_ref: String,
    pub destination_display: String,
    /// RFC 3339 timestamp of the predicted arrival, as fetched.
    pub expected_arrival_time: String,
    pub stop_name: String,
}

/// One predicted vehicle arrival, as fetched for a monitored stop.
pub struct MonitoredVehicleJourney {
    pub line_ref: String,
    pub line_name: String,
    pub origin_name: String,
    pub destination_name: String,
    pub vehicle_location: Location,
    pub monitored_call: MonitoredCall,
}

/// Whole minutes between two instants given in milliseconds, truncated
/// towards zero; negative when the arrival is overdue.
pub open spec fn minutes_diff(arr_ms: int, now_ms: int) -> int {
    if arr_ms - now_ms >= 0 {
        (arr_ms - now_ms) / 60000
    } else {
        -((now_ms - arr_ms) / 60000)
    }
}

/// Minutes to arrival of a journey at the instant `now_ms`: defined exactly
/// when the fetched timestamp is a valid RFC 3339 string.
pub open spec fn arrival_minutes(j: &MonitoredVehicleJourney, now_ms: int) -> Option<int> {
    if rfc3339_parses(j.monitored_call.expected_arrival_time@) {
        Some(minutes_diff(rfc3339_ms_of(j.monitored_call.expected_arrival_time@), now_ms))
    } else {
        None
    }
}

pub use crate::clock::rfc3339_parses;
pub use crate::clock::rfc3339_ms_of;

impl MonitoredVehicleJourney {
    /// Minutes to arrival measured at the given instant.
    pub fn time_to_arrival_at(&self, now_ms: i64) -> (r: Option<i64>)
        requires
            -MS_BOUND < now_ms < MS_BOUND,
        ensures
            r is Some <==> arrival_minutes(self, now_ms as int) is Some,
            r is Some ==> r->0 == arrival_minutes(self, now_ms as int)->0,
            r is Some ==> -400_000_000_000 < r->0 < 400_000_000_000,
    {
        match clock::parse_rfc3339_ms(self.monitored_call.expected_arrival_time.as_str()) {
            Some(arr_ms) => {
                let m: i64 = if arr_ms >= now_ms {
                    let d = (arr_ms - now_ms) as u64;
                    proof {
                        assert(d / 60000 < 400_000_000_000) by (nonlinear_arith)
                            requires
                                d < 18_000_000_000_000_000,
                        ;
                    }
                    (d / 60000) as i64
                } else {
                    let d = (now_ms - arr_ms) as u64;
                    proof {
                        assert(d / 60000 < 400_000_000_000) by (nonlinear_arith)
                            requires
                                d < 18_000_000_000_000_000,
                        ;
                    }
                    -((d / 60000) as i64)
                };
                Some(m)
            },
            None => None,
        }
    }

    /// Minutes to arrival measured now. Whether a value exists depends only
    /// on the fetched timestamp; the value itself depends on the wall clock.
    pub fn time_to_arrival(&self) -> (r: Option<i64>)
        ensures
            r is Some <==> rfc3339_parses(self.monitored_call.expected_arrival_time@),
    {
        let c = clock::read_local_clock();
        self.time_to_arrival_at(c.ms)
    }

    pub fn has_location(&self) -> (r: bool)
        ensures
            r == !location_empty(&self.vehicle_location),
    {
        !self.vehicle_location.is_empty()
    }
}

/// The identity under which journeys fetched for one stop are grouped.
pub struct LineStop {
    pub line_ref: String,
    pub line_name: String,
    pub origin_name: String,
    pub destination_name: String,
    pub stop_name: String,
}

/// The literal printed identity of a line and destination.
pub open spec fn screen_display_of(ls: &LineStop) -> Seq<char> {
    ls.line_ref@ + " - "@ + ls.destination_name@
}

impl LineStop {
    pub fn screen_display(&self) -> (r: String)
        ensures
            r@ == screen_display_of(self),
    {
        self.line_ref.clone().concat(" - ").concat(self.destination_name.as_str())
    }
}

/// A line-stop identity as the plain character data that distinguishes it.
pub type StopKey = (Seq<char>, Seq<char>, Seq<char>, Seq<char>, Seq<char>);

pub open spec fn line_stop_key(ls: &LineStop) -> StopKey {
    (ls.line_ref@, ls.line_name@, ls.origin_name@, ls.destination_name@, ls.stop_name@)
}

pub open spec fn journey_stop_key(j: &MonitoredVehicleJourney) -> StopKey {
    (j.line_ref@, j.line_name@, j.origin_name@, j.destination_name@, j.monitored_call.stop_name@)
}

pub open spec fn stops_key_view(v: Seq<(LineStop, Vec<MonitoredVehicleJourney>)>) -> Seq<
    (StopKey, Seq<MonitoredVehicleJourney>),
> {
    v.map_values(|p: (LineStop, Vec<MonitoredVehicleJourney>)| (line_stop_key(&p.0), p.1@))
}

/// The grouping of fetched journeys by their line-stop identity, in fetch
/// order.
pub open spec fn group_journeys_spec(js: Seq<MonitoredVehicleJourney>) -> Seq<
    (StopKey, Seq<MonitoredVehicleJourney>),
>
    decreases js.len(),
{
    if js.len() == 0 {
        Seq::empty()
    } else {
        grouping::push_entry(group_journeys_spec(js.drop_last()), journey_stop_key(&js.last()), js.last())
    }
}

fn line_stop_matches(ls: &LineStop, j: &MonitoredVehicleJourney) -> (r: bool)
    ensures
        r == (line_stop_key(ls) == journey_stop_key(j)),
{
    ls.line_ref == j.line_ref && ls.line_name == j.line_name && ls.origin_name == j.origin_name
        && ls.destination_name == j.destination_name && ls.stop_name == j.monitored_call.stop_name
}

/// The stop-monitoring request URL for one stop.
pub open spec fn stop_monitor_url_of(token: Seq<char>, stop_id: Seq<char>) -> Seq<char> {
    "https://api.511.org/transit/StopMonitoring?api_key="@ + token + "&agency=SF&stopCode="@
        + stop_id
}

pub fn stop_monitor_url(token: &str, stop_id: &str) -> (r: String)
    ensures
        r@ == stop_monitor_url_of(token@, stop_id@),
{
    let mut url: String = "https://api.511.org/transit/StopMonitoring?api_key=".to_owned();
    url.append(token);
    url.append("&agency=SF&stopCode=");
    url.append(stop_id);
    url
}

fn find_stop_index(
    out: &Vec<(LineStop, Vec<MonitoredVehicleJourney>)>,
    j: &MonitoredVehicleJourney,
) -> (idx: usize)
    ensures
        idx <= out@.len(),
        forall|k: int| 0 <= k < idx ==> line_stop_key(&out@[k].0) != journey_stop_key(j),
        idx < out@.len() ==> line_stop_key(&out@[idx as int].0) == journey_stop_key(j),
{
    let mut idx: usize = 0;
    while idx < out.len()
        invariant
            idx <= out@.len(),
            forall|k: int| 0 <= k < idx ==> line_stop_key(&out@[k].0) != journey_stop_key(j),
        decreases out@.len() - idx,
    {
        if line_stop_matches(&out[idx].0, j) {
            return idx;
        }
        idx = idx + 1;
    }
    idx
}

/// Groups fetched journeys by line-stop identity: identities keep their
/// first-seen order, and each group keeps fetch order.
pub fn group_journeys(journeys: Vec<MonitoredVehicleJourney>) -> (r: Vec<
    (LineStop, Vec<MonitoredVehicleJourney>),
>)
    ensures
        stops_key_view(r@) == group_journeys_spec(journeys@),
{
    let ghost orig = journeys@;
    let mut rest = journeys;
    let mut out: Vec<(LineStop, Vec<MonitoredVehicleJourney>)> = Vec::new();
    proof {
        assert(orig.take(0) =~= Seq::<MonitoredVehicleJourney>::empty());
        assert(stops_key_view(out@) =~~= group_journeys_spec(orig.take(0)));
    }
    while rest.len() > 0
        invariant
            rest@ =~= orig.skip(orig.len() - rest@.len()),
            rest@.len() <= orig.len(),
            stops_key_view(out@) == group_journeys_spec(orig.take(orig.len() - rest@.len())),
        decreases rest@.len(),
    {
        let ghost done = (orig.len() - rest@.len()) as int;
        let j = rest.remove(0);
        proof {
            assert(j == orig[done]);
            assert(rest@ =~= orig.skip(done + 1));
        }
        let idx = find_stop_index(&out, &j);
        let ghost pre = stops_key_view(out@);
        proof {
            assert(forall|k: int| 0 <= k < idx ==> pre[k].0 != journey_stop_key(&j));
            if idx < out.len() {
                assert(pre[idx as int].0 == journey_stop_key(&j));
            }
            grouping::lemma_push_entry_at(pre, journey_stop_key(&j), j, idx as int);
        }
        if idx < out.len() {
            let entry = &mut out[idx];
            entry.1.push(j);
            proof {
                assert(stops_key_view(out@) =~~= grouping::push_entry(
                    pre,
                    journey_stop_key(&j),
                    j,
                ));
            }
        } else {
            let ls = LineStop {
                line_ref: j.line_ref.clone(),
                line_name: j.line_name.clone(),
                origin_name: j.origin_name.clone(),
                destination_name: j.destination_name.clone(),
                stop_name: j.monitored_call.stop_name.clone(),
            };
            let mut group: Vec<MonitoredVehicleJourney> = Vec::new();
            group.push(j);
            out.push((ls, group));
            proof {
                assert(stops_key_view(out@) =~~= grouping::push_entry(
                    pre,
                    journey_stop_key(&j),
                    j,
                ));
            }
        }
        proof {
            assert(orig.take(done + 1).drop_last() =~= orig.take(done));
            assert(orig.take(done + 1).last() == orig[done]);
            assert(stops_key_view(out@) == group_journeys_spec(orig.take(done + 1)));
        }
    }
    proof {
        assert(orig.take(orig.len() as int) =~= orig);
    }
    out
}

} // verus!
