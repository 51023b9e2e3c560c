//! The aggregator: files fetched journeys under their display-line key (an
//! alias for the route when one is configured, else the literal
//! "route - destination" text), drops records without a defined minutes to
//! arrival, and sorts each group ascending by minutes.

use vstd::prelude::*;
use crate::clock::MS_BOUND;
use crate::grouping;
use crate::sorting;
use crate::stop_monitor::LineStop;
use crate::stop_monitor::MonitoredVehicleJourney;
use crate::stop_monitor::arrival_minutes;
use crate::stop_monitor::screen_display_of;

verus! {

/// Display lines as plain data: each group key with its records.
pub type LinesModel = Seq<(Seq<char>, Seq<MonitoredVehicleJourney>)>;

pub open spec fn alias_map_view(m: Seq<(String, String)>) -> Seq<(Seq<char>, Seq<char>)> {
    m.map_values(|p: (String, String)| (p.0@, p.1@))
}

/// First-match lookup in the route-alias table.
pub open spec fn alias_lookup(m: Seq<(Seq<char>, Seq<char>)>, k: Seq<char>) -> Option<Seq<char>>
    decreases m.len(),
{
    if m.len() == 0 {
        None
    } else if m[0].0 == k {
        Some(m[0].1)
    } else {
        alias_lookup(m.skip(1), k)
    }
}

/// The display-line key a journey group is filed under.
pub open spec fn display_key(
    ls: &LineStop,
    amap: Seq<(Seq<char>, Seq<char>)>,
    use_map: bool,
) -> Seq<char> {
    if use_map && alias_lookup(amap, ls.line_ref@) is Some {
        alias_lookup(amap, ls.line_ref@)->0
    } else {
        screen_display_of(ls)
    }
}

/// Files the journeys of one stop under `key`, in fetch order, dropping
/// records without a defined minutes to arrival.
pub open spec fn add_group(
    acc: LinesModel,
    key: Seq<char>,
    js: Seq<MonitoredVehicleJourney>,
    now_ms: int,
) -> LinesModel
    decreases js.len(),
{
    if js.len() == 0 {
        acc
    } else {
        let prev = add_group(acc, key, js.drop_last(), now_ms);
        if arrival_minutes(&js.last(), now_ms) is Some {
            grouping::push_entry(prev, key, js.last())
        } else {
            prev
        }
    }
}

/// The grouping phase over all fetched stops.
pub open spec fn collect_lines(
    stops: Seq<(LineStop, Vec<MonitoredVehicleJourney>)>,
    amap: Seq<(Seq<char>, Seq<char>)>,
    use_map: bool,
    now_ms: int,
) -> LinesModel
    decreases stops.len(),
{
    if stops.len() == 0 {
        Seq::empty()
    } else {
        add_group(
            collect_lines(stops.drop_last(), amap, use_map, now_ms),
            display_key(&stops.last().0, amap, use_map),
            stops.last().1@,
            now_ms,
        )
    }
}

/// The whole aggregation: grouping, then each group sorted ascending by
/// minutes to arrival.
pub open spec fn aggregate_spec(
    stops: Seq<(LineStop, Vec<MonitoredVehicleJourney>)>,
    amap: Seq<(Seq<char>, Seq<char>)>,
    use_map: bool,
    now_ms: int,
) -> LinesModel {
    collect_lines(stops, amap, use_map, now_ms).map_values(
        |p: (Seq<char>, Seq<MonitoredVehicleJourney>)|
            (p.0, sorting::sort_by_minutes(p.1, now_ms)),
    )
}

pub open spec fn lines_view(v: Seq<(String, Vec<MonitoredVehicleJourney>)>) -> LinesModel {
    v.map_values(|p: (String, Vec<MonitoredVehicleJourney>)| (p.0@, p.1@))
}

/// The total number of journeys over all fetched stops.
pub open spec fn total_journeys(stops: Seq<(LineStop, Vec<MonitoredVehicleJourney>)>) -> int
    decreases stops.len(),
{
    if stops.len() == 0 {
        0
    } else {
        total_journeys(stops.drop_last()) + stops.last().1@.len()
    }
}

/// Whether a journey has a defined minutes to arrival at `now_ms`.
pub open spec fn qualified(now_ms: int) -> spec_fn(MonitoredVehicleJourney) -> bool {
    |j: MonitoredVehicleJourney| arrival_minutes(&j, now_ms) is Some
}

proof fn lemma_add_group_props(
    acc: LinesModel,
    key: Seq<char>,
    js: Seq<MonitoredVehicleJourney>,
    now_ms: int,
)
    requires
        grouping::keys_unique(acc),
        grouping::groups_nonempty(acc),
        grouping::all_elems(acc, qualified(now_ms)),
    ensures
        grouping::keys_unique(add_group(acc, key, js, now_ms)),
        grouping::groups_nonempty(add_group(acc, key, js, now_ms)),
        grouping::all_elems(add_group(acc, key, js, now_ms), qualified(now_ms)),
        grouping::group_total(add_group(acc, key, js, now_ms)) <= grouping::group_total(acc)
            + js.len(),
    decreases js.len(),
{
    if js.len() > 0 {
        lemma_add_group_props(acc, key, js.drop_last(), now_ms);
        let prev = add_group(acc, key, js.drop_last(), now_ms);
        if arrival_minutes(&js.last(), now_ms) is Some {
            grouping::lemma_push_entry_wf(prev, key, js.last());
            grouping::lemma_push_entry_all_elems(prev, key, js.last(), qualified(now_ms));
            grouping::lemma_push_entry_total(prev, key, js.last());
        }
    }
}

proof fn lemma_collect_props(
    stops: Seq<(LineStop, Vec<MonitoredVehicleJourney>)>,
    amap: Seq<(Seq<char>, Seq<char>)>,
    use_map: bool,
    now_ms: int,
)
    ensures
        grouping::keys_unique(collect_lines(stops, amap, use_map, now_ms)),
        grouping::groups_nonempty(collect_lines(stops, amap, use_map, now_ms)),
        grouping::all_elems(collect_lines(stops, amap, use_map, now_ms), qualified(now_ms)),
        grouping::group_total(collect_lines(stops, amap, use_map, now_ms)) <= total_journeys(
            stops,
        ),
    decreases stops.len(),
{
    if stops.len() > 0 {
        lemma_collect_props(stops.drop_last(), amap, use_map, now_ms);
        lemma_add_group_props(
            collect_lines(stops.drop_last(), amap, use_map, now_ms),
            display_key(&stops.last().0, amap, use_map),
            stops.last().1@,
            now_ms,
        );
    }
}

/// Laws of the aggregation. No group ever holds a record whose minutes to
/// arrival is undefined; every group is sorted ascending by minutes to
/// arrival; group keys are pairwise distinct; every group is nonempty and no
/// longer than the total number of fetched journeys.
pub proof fn lemma_aggregate_props(
    stops: Seq<(LineStop, Vec<MonitoredVehicleJourney>)>,
    amap: Seq<(Seq<char>, Seq<char>)>,
    use_map: bool,
    now_ms: int,
)
    ensures
        ({
            let agg = aggregate_spec(stops, amap, use_map, now_ms);
            &&& forall|i: int, k: int|
                0 <= i < agg.len() && 0 <= k < agg[i].1.len() ==> arrival_minutes(
                    &#[trigger] agg[i].1[k],
                    now_ms,
                ) is Some
            &&& forall|i: int|
                0 <= i < agg.len() ==> sorting::sorted_by_minutes(#[trigger] agg[i].1, now_ms)
            &&& grouping::keys_unique(agg)
            &&& forall|i: int|
                0 <= i < agg.len() ==> 1 <= #[trigger] agg[i].1.len() <= total_journeys(stops)
        }),
{
    let c = collect_lines(stops, amap, use_map, now_ms);
    let agg = aggregate_spec(stops, amap, use_map, now_ms);
    lemma_collect_props(stops, amap, use_map, now_ms);
    grouping::lemma_group_le_total(c);
    assert forall|i: int| 0 <= i < agg.len() implies {
        &&& sorting::sorted_by_minutes(#[trigger] agg[i].1, now_ms)
        &&& 1 <= agg[i].1.len() <= total_journeys(stops)
        &&& forall|k: int|
            0 <= k < agg[i].1.len() ==> arrival_minutes(&#[trigger] agg[i].1[k], now_ms) is Some
    } by {
        assert(agg[i] == (c[i].0, sorting::sort_by_minutes(c[i].1, now_ms)));
        sorting::lemma_sort_by_minutes_sorted(c[i].1, now_ms);
        assert forall|k: int| 0 <= k < agg[i].1.len() implies arrival_minutes(
            &#[trigger] agg[i].1[k],
            now_ms,
        ) is Some by {
            assert(c[i].1.contains(agg[i].1[k]));
            let w = choose|w: int| 0 <= w < c[i].1.len() && c[i].1[w] == agg[i].1[k];
            assert(qualified(now_ms)(c[i].1[w]));
        }
    }
    assert forall|i: int, k: int| 0 <= i < k < agg.len() implies agg[i].0 != agg[k].0 by {
        assert(agg[i] == (c[i].0, sorting::sort_by_minutes(c[i].1, now_ms)));
        assert(agg[k] == (c[k].0, sorting::sort_by_minutes(c[k].1, now_ms)));
    }
}

/// Law: the aggregation is a function of the records, the alias table and the
/// instant alone — two runs over the same input agree exactly.
pub proof fn lemma_aggregate_deterministic(
    a: Seq<(String, Vec<MonitoredVehicleJourney>)>,
    b: Seq<(String, Vec<MonitoredVehicleJourney>)>,
    stops: Seq<(LineStop, Vec<MonitoredVehicleJourney>)>,
    amap: Seq<(Seq<char>, Seq<char>)>,
    use_map: bool,
    now_ms: int,
)
    requires
        lines_view(a) == aggregate_spec(stops, amap, use_map, now_ms),
        lines_view(b) == aggregate_spec(stops, amap, use_map, now_ms),
    ensures
        lines_view(a) == lines_view(b),
{
}

proof fn lemma_alias_lookup_at(m: Seq<(Seq<char>, Seq<char>)>, k: Seq<char>, idx: int)
    requires
        0 <= idx <= m.len(),
        forall|w: int| 0 <= w < idx ==> m[w].0 != k,
        idx < m.len() ==> m[idx].0 == k,
    ensures
        idx < m.len() ==> alias_lookup(m, k) == Some(m[idx].1),
        idx == m.len() ==> alias_lookup(m, k) is None,
    decreases m.len(),
{
    if m.len() > 0 && m[0].0 != k {
        lemma_alias_lookup_at(m.skip(1), k, idx - 1);
        if idx < m.len() {
            assert(m.skip(1)[idx - 1] == m[idx]);
        }
    }
}

fn lookup_alias(m: &Vec<(String, String)>, key: &String) -> (r: Option<String>)
    ensures
        r is Some <==> alias_lookup(alias_map_view(m@), key@) is Some,
        r is Some ==> r->0@ == alias_lookup(alias_map_view(m@), key@)->0,
{
    let ghost mv = alias_map_view(m@);
    let mut i: usize = 0;
    while i < m.len()
        invariant
            i <= m@.len(),
            mv == alias_map_view(m@),
            forall|w: int| 0 <= w < i ==> mv[w].0 != key@,
        decreases m@.len() - i,
    {
        if m[i].0 == *key {
            proof {
                lemma_alias_lookup_at(mv, key@, i as int);
            }
            return Some(m[i].1.clone());
        }
        i = i + 1;
    }
    proof {
        lemma_alias_lookup_at(mv, key@, m@.len() as int);
    }
    None
}

fn find_line_index(out: &Vec<(String, Vec<MonitoredVehicleJourney>)>, key: &String) -> (idx: usize)
    ensures
        idx <= out@.len(),
        forall|k: int| 0 <= k < idx ==> out@[k].0@ != key@,
        idx < out@.len() ==> out@[idx as int].0@ == key@,
{
    let mut idx: usize = 0;
    while idx < out.len()
        invariant
            idx <= out@.len(),
            forall|k: int| 0 <= k < idx ==> out@[k].0@ != key@,
        decreases out@.len() - idx,
    {
        if out[idx].0 == *key {
            return idx;
        }
        idx = idx + 1;
    }
    idx
}

/// Builds the display lines for one fetch: journeys filed under their
/// display-line key, records without a defined minutes to arrival dropped,
/// and every group sorted ascending by minutes, measured at `now_ms`.
pub fn get_display_lines(
    stops: Vec<(LineStop, Vec<MonitoredVehicleJourney>)>,
    rapid_line_to_parent_map: &Vec<(String, String)>,
    use_line_to_parent_map: bool,
    now_ms: i64,
) -> (r: Vec<(String, Vec<MonitoredVehicleJourney>)>)
    requires
        -MS_BOUND < now_ms < MS_BOUND,
    ensures
        lines_view(r@) == aggregate_spec(
            stops@,
            alias_map_view(rapid_line_to_parent_map@),
            use_line_to_parent_map,
            now_ms as int,
        ),
{
    let ghost orig = stops@;
    let ghost amap = alias_map_view(rapid_line_to_parent_map@);
    let ghost now = now_ms as int;
    let mut rest = stops;
    let mut out: Vec<(String, Vec<MonitoredVehicleJourney>)> = Vec::new();
    proof {
        assert(orig.take(0) =~= Seq::<(LineStop, Vec<MonitoredVehicleJourney>)>::empty());
        assert(lines_view(out@) =~~= collect_lines(
            orig.take(0),
            amap,
            use_line_to_parent_map,
            now,
        ));
    }
    while rest.len() > 0
        invariant
            -MS_BOUND < now_ms < MS_BOUND,
            now == now_ms as int,
            amap == alias_map_view(rapid_line_to_parent_map@),
            rest@ =~= orig.skip(orig.len() - rest@.len()),
            rest@.len() <= orig.len(),
            lines_view(out@) == collect_lines(
                orig.take(orig.len() - rest@.len()),
                amap,
                use_line_to_parent_map,
                now,
            ),
        decreases rest@.len(),
    {
        let ghost done = (orig.len() - rest@.len()) as int;
        let (line_stop, js) = rest.remove(0);
        proof {
            assert((line_stop, js) == orig[done]);
            assert(rest@ =~= orig.skip(done + 1));
        }
        let key: String = if use_line_to_parent_map {
            match lookup_alias(rapid_line_to_parent_map, &line_stop.line_ref) {
                Some(parent) => parent,
                None => line_stop.screen_display(),
            }
        } else {
            line_stop.screen_display()
        };
        proof {
            assert(key@ == display_key(&line_stop, amap, use_line_to_parent_map));
        }
        let ghost base = lines_view(out@);
        let ghost jorig = js@;
        let mut jrest = js;
        proof {
            assert(jorig.take(0) =~= Seq::<MonitoredVehicleJourney>::empty());
        }
        while jrest.len() > 0
            invariant
                -MS_BOUND < now_ms < MS_BOUND,
                now == now_ms as int,
                key@ == display_key(&line_stop, amap, use_line_to_parent_map),
                jrest@ =~= jorig.skip(jorig.len() - jrest@.len()),
                jrest@.len() <= jorig.len(),
                lines_view(out@) == add_group(
                    base,
                    key@,
                    jorig.take(jorig.len() - jrest@.len()),
                    now,
                ),
            decreases jrest@.len(),
        {
            let ghost jdone = (jorig.len() - jrest@.len()) as int;
            let j = jrest.remove(0);
            proof {
                assert(j == jorig[jdone]);
                assert(jrest@ =~= jorig.skip(jdone + 1));
            }
            let ghost pre = lines_view(out@);
            if j.time_to_arrival_at(now_ms).is_some() {
                let idx = find_line_index(&out, &key);
                proof {
                    grouping::lemma_push_entry_at(pre, key@, j, idx as int);
                }
                if idx < out.len() {
                    let entry = &mut out[idx];
                    entry.1.push(j);
                    proof {
                        assert(lines_view(out@) =~~= grouping::push_entry(pre, key@, j));
                    }
                } else {
                    let entry_key = key.clone();
                    let mut group: Vec<MonitoredVehicleJourney> = Vec::new();
                    group.push(j);
                    out.push((entry_key, group));
                    proof {
                        assert(lines_view(out@) =~~= grouping::push_entry(pre, key@, j));
                    }
                }
            }
            proof {
                assert(jorig.take(jdone + 1).drop_last() =~= jorig.take(jdone));
                assert(jorig.take(jdone + 1).last() == jorig[jdone]);
                assert(lines_view(out@) == add_group(base, key@, jorig.take(jdone + 1), now));
            }
        }
        proof {
            assert(jorig.take(jorig.len() as int) =~= jorig);
            assert(orig.take(done + 1).drop_last() =~= orig.take(done));
            assert(orig.take(done + 1).last() == orig[done]);
            assert(lines_view(out@) == collect_lines(
                orig.take(done + 1),
                amap,
                use_line_to_parent_map,
                now,
            ));
        }
    }
    proof {
        assert(orig.take(orig.len() as int) =~= orig);
    }
    let ghost collected = collect_lines(orig, amap, use_line_to_parent_map, now);
    // sorting phase: each group ascending by minutes to arrival
    let mut e: usize = 0;
    while e < out.len()
        invariant
            -MS_BOUND < now_ms < MS_BOUND,
            now == now_ms as int,
            e <= out@.len(),
            out@.len() == collected.len(),
            forall|i: int|
                0 <= i < e ==> #[trigger] lines_view(out@)[i] == (
                collected[i].0,
                sorting::sort_by_minutes(collected[i].1, now),
            ),
            forall|i: int| e <= i < out@.len() ==> #[trigger] lines_view(out@)[i] == collected[i],
        decreases out@.len() - e,
    {
        let ghost pre = out@;
        let (k, g) = out.remove(e);
        let sorted = sorting::sort_group(g, now_ms);
        out.insert(e, (k, sorted));
        proof {
            assert(out@ =~= pre.update(e as int, (k, sorted)));
            assert forall|i: int| 0 <= i < e + 1 implies #[trigger] lines_view(out@)[i] == (
                collected[i].0,
                sorting::sort_by_minutes(collected[i].1, now),
            ) by {
                assert(lines_view(out@)[i] == (out@[i].0@, out@[i].1@));
                if i < e {
                    assert(out@[i] == pre[i]);
                    assert(lines_view(pre)[i] == (pre[i].0@, pre[i].1@));
                } else {
                    assert(out@[i] == (k, sorted));
                    assert(lines_view(pre)[e as int] == (pre[e as int].0@, pre[e as int].1@));
                    assert((k, g) == pre[e as int]);
                    assert(k@ == collected[i].0);
                    assert(g@ == collected[i].1);
                }
            }
            assert forall|i: int| e + 1 <= i < out@.len() implies #[trigger] lines_view(out@)[i]
                == collected[i] by {
                assert(out@[i] == pre[i]);
                assert(lines_view(out@)[i] == (out@[i].0@, out@[i].1@));
                assert(lines_view(pre)[i] == (pre[i].0@, pre[i].1@));
            }
        }
        e = e + 1;
    }
    proof {
        assert(lines_view(out@) =~~= aggregate_spec(orig, amap, use_line_to_parent_map, now));
    }
    out
}

} // verus!
