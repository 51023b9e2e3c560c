//! Stable sorting of a display group by minutes to arrival.

use vstd::prelude::*;
use crate::clock::MS_BOUND;
use crate::stop_monitor::MonitoredVehicleJourney;
use crate::stop_monitor::arrival_minutes;

verus! {

/// The key a group is ordered by: minutes to arrival, with records whose
/// timestamp does not parse pushed to the far future.
pub open spec fn sort_key(j: &MonitoredVehicleJourney, now_ms: int) -> int {
    if arrival_minutes(j, now_ms) is Some {
        arrival_minutes(j, now_ms)->0
    } else {
        999
    }
}

/// Inserts `j` after every record whose key is less than or equal to its own,
/// so that records with equal keys keep their arrival order.
pub open spec fn insert_by_minutes(
    s: Seq<MonitoredVehicleJourney>,
    j: MonitoredVehicleJourney,
    now_ms: int,
) -> Seq<MonitoredVehicleJourney>
    decreases s.len(),
{
    if s.len() == 0 {
        seq![j]
    } else if sort_key(&s[0], now_ms) <= sort_key(&j, now_ms) {
        seq![s[0]] + insert_by_minutes(s.skip(1), j, now_ms)
    } else {
        seq![j] + s
    }
}

/// Stable insertion sort of a group, ascending by minutes to arrival.
pub open spec fn sort_by_minutes(s: Seq<MonitoredVehicleJourney>, now_ms: int) -> Seq<
    MonitoredVehicleJourney,
>
    decreases s.len(),
{
    if s.len() == 0 {
        Seq::empty()
    } else {
        insert_by_minutes(sort_by_minutes(s.drop_last(), now_ms), s.last(), now_ms)
    }
}

pub open spec fn sorted_by_minutes(s: Seq<MonitoredVehicleJourney>, now_ms: int) -> bool {
    forall|i: int, k: int|
        0 <= i < k < s.len() ==> sort_key(&s[i], now_ms) <= sort_key(&s[k], now_ms)
}

/// Where `insert_by_minutes` places the new record: the first index whose key
/// exceeds the new record's key.
pub proof fn lemma_insert_by_minutes_at(
    s: Seq<MonitoredVehicleJourney>,
    j: MonitoredVehicleJourney,
    now_ms: int,
    idx: int,
)
    requires
        0 <= idx <= s.len(),
        forall|k: int| 0 <= k < idx ==> sort_key(&s[k], now_ms) <= sort_key(&j, now_ms),
        idx < s.len() ==> sort_key(&s[idx], now_ms) > sort_key(&j, now_ms),
    ensures
        insert_by_minutes(s, j, now_ms) == s.insert(idx, j),
    decreases s.len(),
{
    if s.len() == 0 {
        assert(insert_by_minutes(s, j, now_ms) =~= s.insert(0, j));
    } else if sort_key(&s[0], now_ms) <= sort_key(&j, now_ms) {
        assert(idx >= 1);
        lemma_insert_by_minutes_at(s.skip(1), j, now_ms, idx - 1);
        assert(insert_by_minutes(s, j, now_ms) =~= s.insert(idx, j));
    } else {
        assert(idx == 0);
        assert(insert_by_minutes(s, j, now_ms) =~= s.insert(0, j));
    }
}

pub proof fn lemma_insert_by_minutes_sorted(
    s: Seq<MonitoredVehicleJourney>,
    j: MonitoredVehicleJourney,
    now_ms: int,
)
    requires
        sorted_by_minutes(s, now_ms),
    ensures
        sorted_by_minutes(insert_by_minutes(s, j, now_ms), now_ms),
        insert_by_minutes(s, j, now_ms).len() == s.len() + 1,
    decreases s.len(),
{
    let r = insert_by_minutes(s, j, now_ms);
    if s.len() == 0 {
    } else if sort_key(&s[0], now_ms) <= sort_key(&j, now_ms) {
        let tail = s.skip(1);
        assert(sorted_by_minutes(tail, now_ms)) by {
            assert forall|i: int, k: int| 0 <= i < k < tail.len() implies sort_key(
                &tail[i],
                now_ms,
            ) <= sort_key(&tail[k], now_ms) by {
                assert(tail[i] == s[i + 1]);
                assert(tail[k] == s[k + 1]);
            }
        }
        lemma_insert_by_minutes_sorted(tail, j, now_ms);
        let rt = insert_by_minutes(tail, j, now_ms);
        // every element of the inserted tail is either from the tail or `j`,
        // and the head's key is below them all
        lemma_insert_by_minutes_members(tail, j, now_ms);
        assert forall|i: int, k: int| 0 <= i < k < r.len() implies sort_key(&r[i], now_ms)
            <= sort_key(&r[k], now_ms) by {
            if i > 0 {
                assert(r[i] == rt[i - 1]);
                assert(r[k] == rt[k - 1]);
            } else {
                assert(r[k] == rt[k - 1]);
                let e = rt[k - 1];
                assert(tail.contains(e) || e == j);
                if tail.contains(e) {
                    let w = choose|w: int| 0 <= w < tail.len() && tail[w] == e;
                    assert(tail[w] == s[w + 1]);
                }
            }
        }
    } else {
        assert forall|i: int, k: int| 0 <= i < k < r.len() implies sort_key(&r[i], now_ms)
            <= sort_key(&r[k], now_ms) by {
            if i > 0 {
                assert(r[i] == s[i - 1]);
            }
            assert(r[k] == s[k - 1]);
        }
    }
}

/// Every record of the inserted sequence is a record of the input or the
/// inserted one.
pub proof fn lemma_insert_by_minutes_members(
    s: Seq<MonitoredVehicleJourney>,
    j: MonitoredVehicleJourney,
    now_ms: int,
)
    ensures
        forall|i: int|
            0 <= i < insert_by_minutes(s, j, now_ms).len() ==> s.contains(
                #[trigger] insert_by_minutes(s, j, now_ms)[i],
            ) || insert_by_minutes(s, j, now_ms)[i] == j,
    decreases s.len(),
{
    let r = insert_by_minutes(s, j, now_ms);
    if s.len() == 0 {
    } else if sort_key(&s[0], now_ms) <= sort_key(&j, now_ms) {
        lemma_insert_by_minutes_members(s.skip(1), j, now_ms);
        let rt = insert_by_minutes(s.skip(1), j, now_ms);
        assert forall|i: int| 0 <= i < r.len() implies s.contains(#[trigger] r[i]) || r[i]
            == j by {
            if i == 0 {
                assert(s[0] == r[0]);
                assert(s.contains(s[0]));
            } else {
                assert(r[i] == rt[i - 1]);
                if rt[i - 1] != j {
                    let w = choose|w: int| 0 <= w < s.skip(1).len() && s.skip(1)[w] == rt[i - 1];
                    assert(s.skip(1)[w] == s[w + 1]);
                    assert(s.contains(s[w + 1]));
                }
            }
        }
    } else {
        assert forall|i: int| 0 <= i < r.len() implies s.contains(#[trigger] r[i]) || r[i]
            == j by {
            if i > 0 {
                assert(r[i] == s[i - 1]);
                assert(s.contains(s[i - 1]));
            }
        }
    }
}

pub proof fn lemma_sort_by_minutes_sorted(s: Seq<MonitoredVehicleJourney>, now_ms: int)
    ensures
        sorted_by_minutes(sort_by_minutes(s, now_ms), now_ms),
        sort_by_minutes(s, now_ms).len() == s.len(),
        forall|i: int|
            0 <= i < s.len() ==> s.contains(#[trigger] sort_by_minutes(s, now_ms)[i]),
    decreases s.len(),
{
    if s.len() > 0 {
        lemma_sort_by_minutes_sorted(s.drop_last(), now_ms);
        let prev = sort_by_minutes(s.drop_last(), now_ms);
        lemma_insert_by_minutes_sorted(prev, s.last(), now_ms);
        lemma_insert_by_minutes_members(prev, s.last(), now_ms);
        let r = sort_by_minutes(s, now_ms);
        assert forall|i: int| 0 <= i < s.len() implies s.contains(#[trigger] r[i]) by {
            if r[i] == s.last() {
                assert(s.contains(s.last()));
            } else {
                assert(prev.contains(r[i]));
                let w = choose|w: int| 0 <= w < prev.len() && prev[w] == r[i];
                assert(s.drop_last().contains(prev[w]));
                let u = choose|u: int| 0 <= u < s.drop_last().len() && s.drop_last()[u] == prev[w];
                assert(s.drop_last()[u] == s[u]);
                assert(s.contains(s[u]));
            }
        }
    }
}

fn sort_key_exec(j: &MonitoredVehicleJourney, now_ms: i64) -> (r: i64)
    requires
        -MS_BOUND < now_ms < MS_BOUND,
    ensures
        r == sort_key(j, now_ms as int),
{
    match j.time_to_arrival_at(now_ms) {
        Some(m) => m,
        None => 999,
    }
}

fn find_insert_index(
    out: &Vec<MonitoredVehicleJourney>,
    j: &MonitoredVehicleJourney,
    now_ms: i64,
) -> (idx: usize)
    requires
        -MS_BOUND < now_ms < MS_BOUND,
    ensures
        idx <= out@.len(),
        forall|k: int|
            0 <= k < idx ==> sort_key(&out@[k], now_ms as int) <= sort_key(j, now_ms as int),
        idx < out@.len() ==> sort_key(&out@[idx as int], now_ms as int) > sort_key(
            j,
            now_ms as int,
        ),
{
    let jkey = sort_key_exec(j, now_ms);
    let mut idx: usize = 0;
    while idx < out.len()
        invariant
            -MS_BOUND < now_ms < MS_BOUND,
            idx <= out@.len(),
            jkey == sort_key(j, now_ms as int),
            forall|k: int|
                0 <= k < idx ==> sort_key(&out@[k], now_ms as int) <= sort_key(j, now_ms as int),
        decreases out@.len() - idx,
    {
        if sort_key_exec(&out[idx], now_ms) > jkey {
            return idx;
        }
        idx = idx + 1;
    }
    idx
}

/// Sorts one display group ascending by minutes to arrival; records with
/// equal minutes keep their fetch order.
pub fn sort_group(group: Vec<MonitoredVehicleJourney>, now_ms: i64) -> (r: Vec<
    MonitoredVehicleJourney,
>)
    requires
        -MS_BOUND < now_ms < MS_BOUND,
    ensures
        r@ == sort_by_minutes(group@, now_ms as int),
{
    let ghost orig = group@;
    let mut rest = group;
    let mut out: Vec<MonitoredVehicleJourney> = Vec::new();
    proof {
        assert(orig.take(0) =~= Seq::<MonitoredVehicleJourney>::empty());
    }
    while rest.len() > 0
        invariant
            -MS_BOUND < now_ms < MS_BOUND,
            rest@ =~= orig.skip(orig.len() - rest@.len()),
            rest@.len() <= orig.len(),
            out@ == sort_by_minutes(orig.take(orig.len() - rest@.len()), now_ms as int),
        decreases rest@.len(),
    {
        let ghost done = (orig.len() - rest@.len()) as int;
        let j = rest.remove(0);
        proof {
            assert(j == orig[done]);
            assert(rest@ =~= orig.skip(done + 1));
        }
        let ghost pre = out@;
        let idx = find_insert_index(&out, &j, now_ms);
        proof {
            lemma_insert_by_minutes_at(pre, j, now_ms as int, idx as int);
        }
        out.insert(idx, j);
        proof {
            assert(orig.take(done + 1).drop_last() =~= orig.take(done));
            assert(orig.take(done + 1).last() == orig[done]);
        }
    }
    proof {
        assert(orig.take(orig.len() as int) =~= orig);
    }
    out
}

} // verus!
