//! Association-list grouping: records are filed under a key, keeping the
//! first-seen order of keys and, within a group, the order of arrival.

use vstd::prelude::*;

verus! {

/// Files `v` under `key`: appends it to the first group whose key matches, or
/// opens a new group at the end.
pub open spec fn push_entry<K, V>(acc: Seq<(K, Seq<V>)>, key: K, v: V) -> Seq<(K, Seq<V>)>
    decreases acc.len(),
{
    if acc.len() == 0 {
        seq![(key, seq![v])]
    } else if acc[0].0 == key {
        seq![(acc[0].0, acc[0].1.push(v))] + acc.skip(1)
    } else {
        seq![acc[0]] + push_entry(acc.skip(1), key, v)
    }
}

pub open spec fn keys_unique<K, V>(acc: Seq<(K, Seq<V>)>) -> bool {
    forall|i: int, j: int| 0 <= i < j < acc.len() ==> acc[i].0 != acc[j].0
}

pub open spec fn groups_nonempty<K, V>(acc: Seq<(K, Seq<V>)>) -> bool {
    forall|i: int| 0 <= i < acc.len() ==> #[trigger] acc[i].1.len() >= 1
}

/// How `push_entry` reads at a given scan position: `idx` is the first group
/// whose key matches, or the length when none does.
pub proof fn lemma_push_entry_at<K, V>(acc: Seq<(K, Seq<V>)>, key: K, v: V, idx: int)
    requires
        0 <= idx <= acc.len(),
        forall|k: int| 0 <= k < idx ==> acc[k].0 != key,
        idx < acc.len() ==> acc[idx].0 == key,
    ensures
        idx < acc.len() ==> push_entry(acc, key, v) == acc.update(
            idx,
            (acc[idx].0, acc[idx].1.push(v)),
        ),
        idx == acc.len() ==> push_entry(acc, key, v) == acc.push((key, seq![v])),
    decreases acc.len(),
{
    if acc.len() == 0 {
        assert(push_entry(acc, key, v) =~~= acc.push((key, seq![v])));
    } else if acc[0].0 == key {
        assert(idx == 0);
        assert(push_entry(acc, key, v) =~~= acc.update(0, (acc[0].0, acc[0].1.push(v))));
    } else {
        assert(idx >= 1);
        lemma_push_entry_at(acc.skip(1), key, v, idx - 1);
        if idx < acc.len() {
            assert(acc.skip(1)[idx - 1] == acc[idx]);
            assert(push_entry(acc, key, v) =~~= acc.update(
                idx,
                (acc[idx].0, acc[idx].1.push(v)),
            ));
        } else {
            assert(push_entry(acc, key, v) =~~= acc.push((key, seq![v])));
        }
    }
}

pub proof fn lemma_push_entry_wf<K, V>(acc: Seq<(K, Seq<V>)>, key: K, v: V)
    requires
        keys_unique(acc),
        groups_nonempty(acc),
    ensures
        keys_unique(push_entry(acc, key, v)),
        groups_nonempty(push_entry(acc, key, v)),
    decreases acc.len(),
{
    if acc.len() == 0 {
    } else if acc[0].0 == key {
        let r = push_entry(acc, key, v);
        assert(r =~~= seq![(acc[0].0, acc[0].1.push(v))] + acc.skip(1));
        assert forall|i: int| 0 <= i < r.len() implies #[trigger] r[i].1.len() >= 1 by {
            if i > 0 {
                assert(r[i] == acc[i]);
            }
        }
        assert forall|i: int, j: int| 0 <= i < j < r.len() implies r[i].0 != r[j].0 by {
            if i > 0 {
                assert(r[i] == acc[i]);
            }
            assert(r[j] == acc[j]);
            if i == 0 {
                assert(r[0].0 == acc[0].0);
            }
        }
    } else {
        let tail = acc.skip(1);
        assert(keys_unique(tail)) by {
            assert forall|i: int, j: int| 0 <= i < j < tail.len() implies tail[i].0 != tail[j].0 by {
                assert(tail[i] == acc[i + 1]);
                assert(tail[j] == acc[j + 1]);
            }
        }
        assert(groups_nonempty(tail)) by {
            assert forall|i: int| 0 <= i < tail.len() implies #[trigger] tail[i].1.len() >= 1 by {
                assert(tail[i] == acc[i + 1]);
            }
        }
        lemma_push_entry_wf(tail, key, v);
        let rt = push_entry(tail, key, v);
        let r = push_entry(acc, key, v);
        assert(r =~~= seq![acc[0]] + rt);
        lemma_push_entry_keys(tail, key, v);
        assert forall|i: int, j: int| 0 <= i < j < r.len() implies r[i].0 != r[j].0 by {
            if i > 0 {
                assert(r[i] == rt[i - 1]);
            }
            assert(r[j] == rt[j - 1]);
            if i == 0 {
                // acc[0].0 differs from key and from every key of the tail
                assert(rt[j - 1].0 == key || tail.map_values(|p: (K, Seq<V>)| p.0).contains(
                    rt[j - 1].0,
                ));
            }
        }
        assert forall|i: int| 0 <= i < r.len() implies #[trigger] r[i].1.len() >= 1 by {
            if i > 0 {
                assert(r[i] == rt[i - 1]);
            }
        }
    }
}

pub open spec fn all_elems<K, V>(acc: Seq<(K, Seq<V>)>, pred: spec_fn(V) -> bool) -> bool {
    forall|i: int, j: int|
        0 <= i < acc.len() && 0 <= j < acc[i].1.len() ==> pred(#[trigger] acc[i].1[j])
}

pub proof fn lemma_push_entry_all_elems<K, V>(
    acc: Seq<(K, Seq<V>)>,
    key: K,
    v: V,
    pred: spec_fn(V) -> bool,
)
    requires
        all_elems(acc, pred),
        pred(v),
    ensures
        all_elems(push_entry(acc, key, v), pred),
    decreases acc.len(),
{
    let r = push_entry(acc, key, v);
    if acc.len() == 0 {
        assert forall|i: int, j: int|
            0 <= i < r.len() && 0 <= j < r[i].1.len() implies pred(#[trigger] r[i].1[j]) by {
            assert(r[0].1 =~= seq![v]);
        }
    } else if acc[0].0 == key {
        assert forall|i: int, j: int|
            0 <= i < r.len() && 0 <= j < r[i].1.len() implies pred(#[trigger] r[i].1[j]) by {
            if i == 0 {
                if j < acc[0].1.len() {
                    assert(r[0].1[j] == acc[0].1[j]);
                } else {
                    assert(r[0].1[j] == v);
                }
            } else {
                assert(r[i] == acc[i]);
            }
        }
    } else {
        let tail = acc.skip(1);
        assert(all_elems(tail, pred)) by {
            assert forall|i: int, j: int|
                0 <= i < tail.len() && 0 <= j < tail[i].1.len() implies pred(
                #[trigger] tail[i].1[j],
            ) by {
                assert(tail[i] == acc[i + 1]);
            }
        }
        lemma_push_entry_all_elems(tail, key, v, pred);
        let rt = push_entry(tail, key, v);
        assert forall|i: int, j: int|
            0 <= i < r.len() && 0 <= j < r[i].1.len() implies pred(#[trigger] r[i].1[j]) by {
            if i == 0 {
                assert(r[0] == acc[0]);
            } else {
                assert(r[i] == rt[i - 1]);
            }
        }
    }
}

/// The total number of records filed over all groups.
pub open spec fn group_total<K, V>(acc: Seq<(K, Seq<V>)>) -> int
    decreases acc.len(),
{
    if acc.len() == 0 {
        0
    } else {
        acc[0].1.len() + group_total(acc.skip(1))
    }
}

pub proof fn lemma_group_le_total<K, V>(acc: Seq<(K, Seq<V>)>)
    ensures
        group_total(acc) >= 0,
        forall|i: int| 0 <= i < acc.len() ==> #[trigger] acc[i].1.len() <= group_total(acc),
    decreases acc.len(),
{
    if acc.len() > 0 {
        lemma_group_le_total(acc.skip(1));
        assert forall|i: int| 0 <= i < acc.len() implies #[trigger] acc[i].1.len() <= group_total(
            acc,
        ) by {
            if i > 0 {
                assert(acc.skip(1)[i - 1] == acc[i]);
            }
        }
    }
}

pub proof fn lemma_push_entry_total<K, V>(acc: Seq<(K, Seq<V>)>, key: K, v: V)
    ensures
        group_total(push_entry(acc, key, v)) == group_total(acc) + 1,
    decreases acc.len(),
{
    let r = push_entry(acc, key, v);
    if acc.len() == 0 {
        assert(r.skip(1) =~~= Seq::<(K, Seq<V>)>::empty());
        assert(group_total(r) == r[0].1.len() + group_total(r.skip(1)));
        assert(group_total(r.skip(1)) == 0);
        assert(group_total(r) == group_total(acc) + 1);
    } else if acc[0].0 == key {
        assert(r.skip(1) =~~= acc.skip(1));
        assert(r[0].1.len() == acc[0].1.len() + 1);
        assert(group_total(r) == r[0].1.len() + group_total(r.skip(1)));
        assert(group_total(r) == group_total(acc) + 1);
    } else {
        lemma_push_entry_total(acc.skip(1), key, v);
        assert(r.skip(1) =~~= push_entry(acc.skip(1), key, v));
        assert(r[0] == acc[0]);
        assert(group_total(r) == r[0].1.len() + group_total(r.skip(1)));
        assert(group_total(r) == group_total(acc) + 1);
    }
}

/// Every key of the result is the new key or a key of the input.
pub proof fn lemma_push_entry_keys<K, V>(acc: Seq<(K, Seq<V>)>, key: K, v: V)
    ensures
        forall|i: int|
            0 <= i < push_entry(acc, key, v).len() ==> #[trigger] push_entry(acc, key, v)[i].0
                == key || acc.map_values(|p: (K, Seq<V>)| p.0).contains(
                push_entry(acc, key, v)[i].0,
            ),
    decreases acc.len(),
{
    let r = push_entry(acc, key, v);
    let acckeys = acc.map_values(|p: (K, Seq<V>)| p.0);
    if acc.len() == 0 {
    } else if acc[0].0 == key {
        assert forall|i: int| 0 <= i < r.len() implies #[trigger] r[i].0 == key
            || acckeys.contains(r[i].0) by {
            if i > 0 {
                assert(r[i] == acc[i]);
                assert(acckeys[i] == acc[i].0);
            }
        }
    } else {
        lemma_push_entry_keys(acc.skip(1), key, v);
        let rt = push_entry(acc.skip(1), key, v);
        let tailkeys = acc.skip(1).map_values(|p: (K, Seq<V>)| p.0);
        assert forall|i: int| 0 <= i < r.len() implies #[trigger] r[i].0 == key
            || acckeys.contains(r[i].0) by {
            if i == 0 {
                assert(acckeys[0] == acc[0].0);
            } else {
                assert(r[i] == rt[i - 1]);
                if rt[i - 1].0 != key {
                    let w = choose|w: int| 0 <= w < tailkeys.len() && tailkeys[w] == rt[i - 1].0;
                    assert(acckeys[w + 1] == acc[w + 1].0);
                    assert(acc.skip(1)[w] == acc[w + 1]);
                }
            }
        }
    }
}

} // verus!
