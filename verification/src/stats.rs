//! Collected results: one record per measured commit, and what is read
//! back from a set of records (series of a metric over time, names of all
//! metrics).
use vstd::prelude::*;

use crate::extremes::{max_of, min_of, seq_max, seq_min};
use crate::text::{
    less_than, same_text, lemma_text_less_total, lemma_text_less_transitive,
    text_less,
};

verus! {

/// The results of one run of the collector on one commit.
pub struct Stats {
    /// Each metric's name and value.
    pub metrics: Vec<(String, u64)>,
    pub commit: String,
    /// When the run ended, in milliseconds since the Unix epoch.
    pub timestamp: u128,
    /// When the commit was made, in milliseconds since the Unix epoch.
    pub commit_timestamp: u128,
    pub rust: Rust,
    pub host: Host,
}

/// The Rust toolchains of a run.
pub struct Rust {
    pub stable: String,
    pub nightly: String,
}

/// The machine of a run.
pub struct Host {
    pub hostname: String,
    pub os_version: String,
}

/// The metrics that a list of entries defines: each name with the value of
/// its last entry.
pub open spec fn metrics_map(entries: Seq<(String, u64)>) -> Map<Seq<char>, u64>
    decreases entries.len(),
{
    if entries.len() == 0 {
        Map::empty()
    } else {
        metrics_map(entries.drop_last()).insert(entries.last().0@, entries.last().1)
    }
}

/// The value of the metric `name` among `entries`, if there is one.
pub open spec fn metric_lookup(entries: Seq<(String, u64)>, name: Seq<char>) -> Option<u64> {
    if metrics_map(entries).contains_key(name) {
        Some(metrics_map(entries)[name])
    } else {
        None
    }
}

/// Whether no two entries have the same name.
pub open spec fn distinct_keys(entries: Seq<(String, u64)>) -> bool {
    forall|i: int, j: int|
        0 <= i < entries.len() && 0 <= j < entries.len() && i != j ==> (#[trigger] entries[i]).0@
            != (#[trigger] entries[j]).0@
}

/// All entries of all batches, batch after batch.
pub open spec fn flatten(batches: Seq<Vec<(String, u64)>>) -> Seq<(String, u64)>
    decreases batches.len(),
{
    if batches.len() == 0 {
        Seq::empty()
    } else {
        flatten(batches.drop_last()) + batches.last()@
    }
}

/// Where no two entries have the same name, the metrics are exactly the
/// entries.
pub proof fn lemma_distinct_metrics(entries: Seq<(String, u64)>)
    requires
        distinct_keys(entries),
    ensures
        forall|i: int|
            0 <= i < entries.len() ==> #[trigger] metrics_map(entries).contains_key(entries[i].0@)
                && metrics_map(entries)[entries[i].0@] == entries[i].1,
        forall|k: Seq<char>|
            #[trigger] metrics_map(entries).contains_key(k) ==> exists|i: int|
                0 <= i < entries.len() && entries[i].0@ == k,
    decreases entries.len(),
{
    if entries.len() > 0 {
        let init = entries.drop_last();
        assert(distinct_keys(init)) by {
            assert forall|i: int, j: int|
                0 <= i < init.len() && 0 <= j < init.len() && i != j implies (#[trigger] init[i]).0@
                != (#[trigger] init[j]).0@ by {
                assert(init[i] == entries[i]);
                assert(init[j] == entries[j]);
            }
        }
        lemma_distinct_metrics(init);
        let n = entries.len() - 1;
        assert forall|i: int| 0 <= i < entries.len() implies #[trigger] metrics_map(
            entries,
        ).contains_key(entries[i].0@) && metrics_map(entries)[entries[i].0@] == entries[i].1 by {
            if i < n {
                assert(init[i] == entries[i]);
                assert(entries[i].0@ != entries[n].0@);
                assert(metrics_map(init).contains_key(init[i].0@));
            } else {
                assert(entries.last() == entries[i]);
            }
        }
        assert forall|k: Seq<char>| #[trigger] metrics_map(entries).contains_key(k) implies exists|
            i: int,
        | 0 <= i < entries.len() && entries[i].0@ == k by {
            if k != entries[n].0@ {
                assert(metrics_map(init).contains_key(k));
                let i = choose|i: int| 0 <= i < init.len() && init[i].0@ == k;
                assert(entries[i] == init[i]);
            }
        }
    }
}

/// A metric has no value exactly when no entry names it; it has the value
/// `v` exactly when the last entry that names it carries `v`.
pub proof fn lemma_lookup_meaning(entries: Seq<(String, u64)>, k: Seq<char>, v: u64)
    ensures
        metric_lookup(entries, k) is None <==> forall|j: int|
            0 <= j < entries.len() ==> (#[trigger] entries[j]).0@ != k,
        metric_lookup(entries, k) == Some(v) <==> exists|j: int|
            0 <= j < entries.len() && (#[trigger] entries[j]).0@ == k && entries[j].1 == v
                && forall|l: int| j < l < entries.len() ==> (#[trigger] entries[l]).0@ != k,
    decreases entries.len(),
{
    if entries.len() > 0 {
        let init = entries.drop_last();
        let n = init.len() as int;
        lemma_lookup_meaning(init, k, v);
        assert(entries.last() == entries[n]);
        if entries[n].0@ != k {
            assert forall|j: int| 0 <= j < n implies #[trigger] init[j] == entries[j] by {}
            if exists|j: int|
                0 <= j < entries.len() && (#[trigger] entries[j]).0@ == k && entries[j].1 == v
                    && forall|l: int| j < l < entries.len() ==> (#[trigger] entries[l]).0@ != k {
                let j = choose|j: int|
                    0 <= j < entries.len() && (#[trigger] entries[j]).0@ == k && entries[j].1 == v
                        && forall|l: int| j < l < entries.len() ==> (#[trigger] entries[l]).0@ != k;
                assert(init[j] == entries[j]);
                assert forall|l: int| j < l < init.len() implies (#[trigger] init[l]).0@ != k by {
                    assert(init[l] == entries[l]);
                }
            }
            if metric_lookup(init, k) == Some(v) {
                let j = choose|j: int|
                    0 <= j < init.len() && (#[trigger] init[j]).0@ == k && init[j].1 == v && forall|
                        l: int,
                    | j < l < init.len() ==> (#[trigger] init[l]).0@ != k;
                assert(init[j] == entries[j]);
                assert forall|l: int| j < l < entries.len() implies (#[trigger] entries[l]).0@
                    != k by {
                    if l < n {
                        assert(init[l] == entries[l]);
                    }
                }
            }
            if forall|j: int| 0 <= j < init.len() ==> (#[trigger] init[j]).0@ != k {
                assert forall|j: int| 0 <= j < entries.len() implies (#[trigger] entries[j]).0@
                    != k by {
                    if j < n {
                        assert(init[j] == entries[j]);
                    }
                }
            }
            if forall|j: int| 0 <= j < entries.len() ==> (#[trigger] entries[j]).0@ != k {
                assert forall|j: int| 0 <= j < init.len() implies (#[trigger] init[j]).0@ != k by {
                    assert(init[j] == entries[j]);
                }
            }
        } else {
            if entries[n].1 == v {
                assert(entries[n].0@ == k);
            }
            if exists|j: int|
                0 <= j < entries.len() && (#[trigger] entries[j]).0@ == k && entries[j].1 == v
                    && forall|l: int| j < l < entries.len() ==> (#[trigger] entries[l]).0@ != k {
                let j = choose|j: int|
                    0 <= j < entries.len() && (#[trigger] entries[j]).0@ == k && entries[j].1 == v
                        && forall|l: int| j < l < entries.len() ==> (#[trigger] entries[l]).0@ != k;
                if j < n {
                    assert(entries[n].0@ != k);
                }
            }
        }
    }
}

/// Batches are put together in order: one batch alone is itself, and the
/// batches of two lists are those of the first, then those of the second.
pub proof fn lemma_flatten_in_order(
    b: Vec<(String, u64)>,
    s1: Seq<Vec<(String, u64)>>,
    s2: Seq<Vec<(String, u64)>>,
)
    ensures
        flatten(Seq::empty()) == Seq::<(String, u64)>::empty(),
        flatten(seq![b]) == b@,
        flatten(s1 + s2) == flatten(s1) + flatten(s2),
    decreases s2.len(),
{
    let one = seq![b];
    assert(one.drop_last() =~= Seq::<Vec<(String, u64)>>::empty());
    assert(flatten(one.drop_last()) =~= Seq::<(String, u64)>::empty());
    assert(one.last() == b);
    assert(flatten(one) =~= b@);
    if s2.len() == 0 {
        assert(s1 + s2 =~= s1);
        assert(flatten(s2) =~= Seq::empty());
        assert(flatten(s1) + flatten(s2) =~= flatten(s1));
    } else {
        lemma_flatten_in_order(b, s1, s2.drop_last());
        assert((s1 + s2).drop_last() =~= s1 + s2.drop_last());
        assert((s1 + s2).last() == s2.last());
        assert(flatten(s1 + s2) =~= flatten(s1) + flatten(s2));
    }
}

/// No two entries of a list with distinct keys have the same name.
pub proof fn lemma_distinct_keys_meaning(entries: Seq<(String, u64)>, i: int, j: int)
    requires
        distinct_keys(entries),
        0 <= i < entries.len(),
        0 <= j < entries.len(),
        entries[i].0@ == entries[j].0@,
    ensures
        i == j,
{
}

/// The value of a metric is that of the last entry that names it.
pub proof fn lemma_last_entry_wins(entries: Seq<(String, u64)>, i: int)
    requires
        0 <= i < entries.len(),
        forall|j: int| i < j < entries.len() ==> (#[trigger] entries[j]).0@ != entries[i].0@,
    ensures
        metric_lookup(entries, entries[i].0@) == Some(entries[i].1),
    decreases entries.len(),
{
    if i < entries.len() - 1 {
        let init = entries.drop_last();
        assert(entries[entries.len() - 1].0@ != entries[i].0@);
        assert forall|j: int| i < j < init.len() implies (#[trigger] init[j]).0@ != init[i].0@ by {
            assert(init[j] == entries[j]);
        }
        lemma_last_entry_wins(init, i);
    }
}

/// The value of the metric `name` among `entries`: that of its last entry.
pub fn metric_value(entries: &Vec<(String, u64)>, name: &str) -> (r: Option<u64>)
    ensures
        r == metric_lookup(entries@, name@),
{
    let mut r: Option<u64> = None;
    let mut i: usize = 0;
    while i < entries.len()
        invariant
            0 <= i <= entries.len(),
            r == metric_lookup(entries@.take(i as int), name@),
        decreases entries.len() - i,
    {
        assert(entries@.take(i + 1).drop_last() =~= entries@.take(i as int));
        assert(entries@.take(i + 1).last() == entries@[i as int]);
        if same_text(entries[i].0.as_str(), name) {
            r = Some(entries[i].1);
        }
        i = i + 1;
    }
    assert(entries@.take(entries.len() as int) =~= entries@);
    r
}

/// Sets the metric `name` to `value` in `entries`, whose names are distinct.
pub fn set_metric(entries: &mut Vec<(String, u64)>, name: String, value: u64)
    requires
        distinct_keys(old(entries)@),
    ensures
        distinct_keys(final(entries)@),
        metrics_map(final(entries)@) == metrics_map(old(entries)@).insert(name@, value),
{
    let ghost before = entries@;
    proof {
        lemma_distinct_metrics(before);
    }
    let mut i: usize = 0;
    let mut found = false;
    while i < entries.len() && !found
        invariant
            entries@ == before,
            0 <= i <= entries.len(),
            forall|k: int| 0 <= k < i ==> (#[trigger] before[k]).0@ != name@,
            found ==> i < entries.len() && before[i as int].0@ == name@,
        decreases entries.len() - i + (if found { 0int } else { 1int }),
    {
        if entries[i].0 == name {
            found = true;
        } else {
            i = i + 1;
        }
    }
    if found {
        entries.set(i, (name, value));
    } else {
        entries.push((name, value));
    }
    let ghost after = entries@;
    assert(distinct_keys(after)) by {
        assert forall|a: int, b: int|
            0 <= a < after.len() && 0 <= b < after.len() && a != b implies (#[trigger] after[a]).0@
            != (#[trigger] after[b]).0@ by {
            if a < before.len() && a != i {
                assert(after[a] == before[a]);
            }
            if b < before.len() && b != i {
                assert(after[b] == before[b]);
            }
        }
    }
    proof {
        lemma_distinct_metrics(after);
        let expected = metrics_map(before).insert(name@, value);
        assert forall|k: Seq<char>| #[trigger] metrics_map(after).contains_key(k) <==> expected.contains_key(
            k,
        ) by {
            if metrics_map(after).contains_key(k) {
                let j = choose|j: int| 0 <= j < after.len() && after[j].0@ == k;
                if k != name@ {
                    assert(after[j] == before[j]);
                }
            }
            if expected.contains_key(k) && k != name@ {
                let j = choose|j: int| 0 <= j < before.len() && before[j].0@ == k;
                assert(after[j] == before[j]);
            }
            if k == name@ {
                assert(after[i as int].0@ == name@);
            }
        }
        assert forall|k: Seq<char>| #[trigger] metrics_map(after).contains_key(k) implies metrics_map(
            after,
        )[k] == expected[k] by {
            let j = choose|j: int| 0 <= j < after.len() && after[j].0@ == k;
            if k != name@ {
                assert(after[j] == before[j]);
            } else {
                assert(after[i as int].0@ == name@);
            }
        }
        assert(metrics_map(after) =~= expected);
    }
}

/// All metrics of all batches in one list without repeated names; where a
/// name occurs more than once, the last value wins.
pub fn merge_metrics(batches: Vec<Vec<(String, u64)>>) -> (merged: Vec<(String, u64)>)
    ensures
        distinct_keys(merged@),
        metrics_map(merged@) == metrics_map(flatten(batches@)),
{
    let mut merged: Vec<(String, u64)> = Vec::new();
    let mut b: usize = 0;
    proof {
        assert(metrics_map(merged@) =~= metrics_map(flatten(batches@.take(0))));
    }
    while b < batches.len()
        invariant
            0 <= b <= batches.len(),
            distinct_keys(merged@),
            metrics_map(merged@) == metrics_map(flatten(batches@.take(b as int))),
        decreases batches.len() - b,
    {
        let batch = &batches[b];
        let ghost done = flatten(batches@.take(b as int));
        let mut e: usize = 0;
        while e < batch.len()
            invariant
                0 <= e <= batch.len(),
                distinct_keys(merged@),
                metrics_map(merged@) == metrics_map(done + batch@.take(e as int)),
            decreases batch.len() - e,
        {
            let ghost prev = done + batch@.take(e as int);
            assert((done + batch@.take(e + 1)).drop_last() =~= prev);
            assert((done + batch@.take(e + 1)).last() == batch@[e as int]);
            set_metric(&mut merged, batch[e].0.clone(), batch[e].1);
            e = e + 1;
        }
        assert(batches@.take(b + 1).drop_last() =~= batches@.take(b as int));
        assert(batch@.take(batch.len() as int) =~= batch@);
        b = b + 1;
    }
    assert(batches@.take(batches.len() as int) =~= batches@);
    merged
}


/// Whether run `a` comes before run `b` when runs are ordered by time
/// `ts`, runs of the same time keeping their order.
pub open spec fn time_before(ts: Seq<u128>, a: int, b: int) -> bool {
    ts[a] < ts[b] || (ts[a] == ts[b] && a < b)
}

/// Whether `order` lists every index of `ts` once, ordered by time, indices
/// of equal times in increasing order (the order of a stable sort by time).
pub open spec fn is_time_order(ts: Seq<u128>, order: Seq<usize>) -> bool {
    &&& order.len() == ts.len()
    &&& forall|k: int| 0 <= k < order.len() ==> #[trigger] order[k] < ts.len()
    &&& forall|i: int| 0 <= i < ts.len() ==> #[trigger] order.contains(i as usize)
    &&& forall|k1: int, k2: int|
        0 <= k1 < k2 < order.len() ==> time_before(
            ts,
            #[trigger] order[k1] as int,
            #[trigger] order[k2] as int,
        )
}

/// Two orders by time agree on their first `n` positions.
proof fn lemma_time_orders_agree(ts: Seq<u128>, o1: Seq<usize>, o2: Seq<usize>, n: int)
    requires
        is_time_order(ts, o1),
        is_time_order(ts, o2),
        0 <= n <= o1.len(),
    ensures
        forall|j: int| 0 <= j < n ==> o1[j] == o2[j],
    decreases n,
{
    if n > 0 {
        lemma_time_orders_agree(ts, o1, o2, n - 1);
        let k = n - 1;
        let a = o1[k];
        let b = o2[k];
        if a != b {
            assert(o2.contains(a as int as usize));
            let m = choose|m: int| 0 <= m < o2.len() && o2[m] == a;
            assert(o1.contains(b as int as usize));
            let m1 = choose|m: int| 0 <= m < o1.len() && o1[m] == b;
            if m < k {
                assert(o1[m] == a);
                assert(time_before(ts, o1[m] as int, o1[k] as int));
            }
            if m1 < k {
                assert(o2[m1] == b);
                assert(time_before(ts, o2[m1] as int, o2[k] as int));
            }
            assert(time_before(ts, o2[k] as int, o2[m] as int));
            assert(time_before(ts, o1[k] as int, o1[m1] as int));
        }
    }
}

/// There is only one order by time: a stable sort by time has exactly one
/// outcome.
pub proof fn lemma_time_order_unique(ts: Seq<u128>, o1: Seq<usize>, o2: Seq<usize>)
    requires
        is_time_order(ts, o1),
        is_time_order(ts, o2),
    ensures
        o1 == o2,
{
    lemma_time_orders_agree(ts, o1, o2, o1.len() as int);
    assert(o1 =~= o2);
}

/// The indices of `ts` ordered by time, indices of equal times in
/// increasing order.
#[verifier::rlimit(40)]
pub fn time_order(ts: &Vec<u128>) -> (order: Vec<usize>)
    ensures
        is_time_order(ts@, order@),
{
    let mut order: Vec<usize> = Vec::new();
    let mut i: usize = 0;
    while i < ts.len()
        invariant
            0 <= i <= ts.len(),
            order.len() == i,
            forall|k: int| 0 <= k < order.len() ==> #[trigger] order@[k] < i,
            forall|j: int| 0 <= j < i ==> #[trigger] order@.contains(j as usize),
            forall|k1: int, k2: int|
                0 <= k1 < k2 < order.len() ==> time_before(
                    ts@,
                    #[trigger] order@[k1] as int,
                    #[trigger] order@[k2] as int,
                ),
        decreases ts.len() - i,
    {
        let mut p: usize = 0;
        while p < order.len() && ts[order[p]] <= ts[i]
            invariant
                0 <= p <= order.len(),
                i < ts.len(),
                forall|k: int| 0 <= k < order.len() ==> #[trigger] order@[k] < i,
                forall|k: int| 0 <= k < p ==> ts@[#[trigger] order@[k] as int] <= ts@[i as int],
            decreases order.len() - p,
        {
            p = p + 1;
        }
        let ghost before = order@;
        order.insert(p, i);
        proof {
            before.insert_ensures(p as int, i);
            let after = order@;
            assert forall|k: int| 0 <= k < after.len() implies #[trigger] after[k] < i + 1 by {
                if k < p {
                    assert(after[k] == before[k]);
                } else if k > p {
                    assert(after[k] == before[k - 1]);
                }
            }
            assert forall|j: int| 0 <= j < i + 1 implies #[trigger] after.contains(j as usize) by {
                if j == i {
                    assert(after[p as int] == i);
                } else {
                    assert(before.contains(j as usize));
                    let m = choose|m: int| 0 <= m < before.len() && before[m] == j as usize;
                    if m < p {
                        assert(after[m] == before[m]);
                    } else {
                        assert(after[m + 1] == before[m]);
                    }
                }
            }
            assert forall|k1: int, k2: int| 0 <= k1 < k2 < after.len() implies time_before(
                ts@,
                #[trigger] after[k1] as int,
                #[trigger] after[k2] as int,
            ) by {
                if k2 < p {
                    assert(after[k1] == before[k1] && after[k2] == before[k2]);
                } else if k2 == p {
                    assert(after[k1] == before[k1]);
                    assert(ts@[before[k1] as int] <= ts@[i as int]);
                } else if k1 < p {
                    assert(after[k1] == before[k1] && after[k2] == before[k2 - 1]);
                } else if k1 == p {
                    assert(after[k2] == before[k2 - 1]);
                    assert(ts@[before[p as int] as int] > ts@[i as int]);
                    if k2 - 1 > p {
                        assert(time_before(ts@, before[p as int] as int, before[k2 - 1] as int));
                    }
                } else {
                    assert(after[k1] == before[k1 - 1] && after[k2] == before[k2 - 1]);
                }
            }
        }
        i = i + 1;
    }
    order
}

/// The times at which the commits of `stats` were made.
pub open spec fn commit_times(stats: Seq<Stats>) -> Seq<u128> {
    stats.map_values(|s: Stats| s.commit_timestamp)
}

/// Along an order by time the commit times never decrease, and runs of the
/// same time come in the order they were given.
pub proof fn lemma_time_order_sorted(ts: Seq<u128>, order: Seq<usize>, k1: int, k2: int)
    requires
        is_time_order(ts, order),
        0 <= k1 < k2 < order.len(),
    ensures
        ts[order[k1] as int] <= ts[order[k2] as int],
        ts[order[k1] as int] == ts[order[k2] as int] ==> order[k1] < order[k2],
        order[k1] != order[k2],
        order.len() == ts.len(),
        forall|i: int| 0 <= i < ts.len() ==> #[trigger] order.contains(i as usize),
{
    assert(time_before(ts, order[k1] as int, order[k2] as int));
}

/// The commit times are those of the runs, in place.
pub proof fn lemma_commit_times_in_place(stats: Seq<Stats>)
    ensures
        commit_times(stats).len() == stats.len(),
        forall|i: int|
            0 <= i < stats.len() ==> #[trigger] commit_times(stats)[i] == stats[i].commit_timestamp,
{
}

/// One value of a metric, with the commit it was measured on.
#[derive(Debug)]
pub struct SeriesPoint {
    pub timestamp: u128,
    pub commit: String,
    pub value: u64,
}

/// Whether `p` is the value of `metric` in the run `s`.
pub open spec fn is_point_of(p: SeriesPoint, s: Stats, metric: Seq<char>) -> bool {
    &&& p.timestamp == s.commit_timestamp
    &&& p.commit@ == s.commit@
    &&& metric_lookup(s.metrics@, metric) == Some(p.value)
}

/// Whether some run of `stats` lacks `metric`.
pub open spec fn some_run_lacks(stats: Seq<Stats>, metric: Seq<char>) -> bool {
    exists|i: int| 0 <= i < stats.len() && #[trigger] metric_lookup(stats[i].metrics@, metric) is None
}

/// The values of `metric` in all runs, ordered by the time of their commit
/// (runs of commits made at the same time keep their order); `None` where a
/// run lacks the metric.
pub fn metric_series(stats: &Vec<Stats>, metric: &str) -> (series: Option<Vec<SeriesPoint>>)
    ensures
        series is None <==> some_run_lacks(stats@, metric@),
        series matches Some(points) ==> exists|order: Seq<usize>|
            is_time_order(commit_times(stats@), order) && points.len() == stats.len() && forall|
                k: int,
            |
                0 <= k < points.len() ==> is_point_of(
                    #[trigger] points@[k],
                    stats@[order[k] as int],
                    metric@,
                ),
{
    let mut ts: Vec<u128> = Vec::new();
    let mut values: Vec<u64> = Vec::new();
    let mut i: usize = 0;
    while i < stats.len()
        invariant
            0 <= i <= stats.len(),
            ts.len() == i,
            values.len() == i,
            forall|k: int| 0 <= k < i ==> #[trigger] ts@[k] == stats@[k].commit_timestamp,
            forall|k: int|
                0 <= k < i ==> metric_lookup(stats@[k].metrics@, metric@) == Some(
                    #[trigger] values@[k],
                ),
        decreases stats.len() - i,
    {
        match stats[i].metric(metric) {
            Some(v) => {
                values.push(v);
            },
            None => {
                return None;
            },
        }
        ts.push(stats[i].commit_timestamp);
        i = i + 1;
    }
    assert(ts@ =~= commit_times(stats@));
    let order = time_order(&ts);
    let mut points: Vec<SeriesPoint> = Vec::new();
    let mut k: usize = 0;
    while k < order.len()
        invariant
            0 <= k <= order.len(),
            order.len() == stats.len(),
            values.len() == stats.len(),
            is_time_order(commit_times(stats@), order@),
            forall|j: int|
                0 <= j < stats.len() ==> metric_lookup(stats@[j].metrics@, metric@) == Some(
                    #[trigger] values@[j],
                ),
            points.len() == k,
            forall|j: int|
                0 <= j < k ==> is_point_of(
                    #[trigger] points@[j],
                    stats@[order@[j] as int],
                    metric@,
                ),
        decreases order.len() - k,
    {
        let r = order[k];
        assert(order@[k as int] < stats.len());
        let point = SeriesPoint {
            timestamp: stats[r].commit_timestamp,
            commit: stats[r].commit.clone(),
            value: values[r],
        };
        points.push(point);
        k = k + 1;
    }
    assert(!some_run_lacks(stats@, metric@)) by {
        assert forall|j: int| 0 <= j < stats.len() implies !(#[trigger] metric_lookup(
            stats@[j].metrics@,
            metric@,
        ) is None) by {
            assert(metric_lookup(stats@[j].metrics@, metric@) == Some(values@[j]));
        }
    }
    Some(points)
}

/// The values of a series, in order.
pub open spec fn point_values(points: Seq<SeriesPoint>) -> Seq<u64> {
    points.map_values(|p: SeriesPoint| p.value)
}

/// The smallest and the largest value of a non-empty series.
pub fn value_range(points: &Vec<SeriesPoint>) -> (range: (u64, u64))
    requires
        points.len() > 0,
    ensures
        range == (seq_min(point_values(points@)), seq_max(point_values(points@))),
        range.0 <= range.1,
        point_values(points@).contains(range.0),
        point_values(points@).contains(range.1),
{
    proof {
        crate::extremes::lemma_extremes(point_values(points@));
        assert(point_values(points@)[0] == points@[0].value);
    }
    let mut values: Vec<u64> = Vec::new();
    let mut i: usize = 0;
    while i < points.len()
        invariant
            0 <= i <= points.len(),
            values@ == point_values(points@).take(i as int),
        decreases points.len() - i,
    {
        values.push(points[i].value);
        i = i + 1;
        assert(values@ =~= point_values(points@).take(i as int));
    }
    assert(values@ =~= point_values(points@));
    (min_of(&values), max_of(&values))
}

/// Whether the names are in strictly increasing order.
pub open spec fn strictly_sorted(names: Seq<Seq<char>>) -> bool {
    forall|a: int, b: int|
        0 <= a < b < names.len() ==> text_less(#[trigger] names[a], #[trigger] names[b])
}

/// A point of a run carries the run's commit and commit time and the value
/// of the run's last entry named after the metric; no run lacks a metric
/// exactly when every run has an entry named after it.
pub proof fn lemma_series_meaning(p: SeriesPoint, s: Stats, stats: Seq<Stats>, metric: Seq<char>)
    ensures
        is_point_of(p, s, metric) <==> (p.timestamp == s.commit_timestamp && p.commit@ == s.commit@
            && exists|j: int|
            0 <= j < s.metrics@.len() && (#[trigger] s.metrics@[j]).0@ == metric
                && s.metrics@[j].1 == p.value && forall|l: int|
                j < l < s.metrics@.len() ==> (#[trigger] s.metrics@[l]).0@ != metric),
        !some_run_lacks(stats, metric) <==> forall|i: int|
            0 <= i < stats.len() ==> names_metric(#[trigger] stats[i].metrics@, metric),
{
    lemma_lookup_meaning(s.metrics@, metric, p.value);
    assert forall|i: int| 0 <= i < stats.len() implies (metric_lookup(
        #[trigger] stats[i].metrics@,
        metric,
    ) is None <==> !exists|j: int|
        0 <= j < stats[i].metrics@.len() && (#[trigger] stats[i].metrics@[j]).0@ == metric) by {
        lemma_lookup_meaning(stats[i].metrics@, metric, 0);
    }
    if !some_run_lacks(stats, metric) {
        assert forall|i: int| 0 <= i < stats.len() implies names_metric(
            #[trigger] stats[i].metrics@,
            metric,
        ) by {
            assert(!(metric_lookup(stats[i].metrics@, metric) is None));
        }
    } else {
        let i = choose|i: int|
            0 <= i < stats.len() && #[trigger] metric_lookup(stats[i].metrics@, metric) is None;
        lemma_lookup_meaning(stats[i].metrics@, metric, 0);
        assert(!names_metric(stats[i].metrics@, metric));
    }
}

/// An entry list names `t` exactly when one of its entries is named `t`.
pub proof fn lemma_names_metric_meaning(entries: Seq<(String, u64)>, t: Seq<char>, j: int)
    ensures
        0 <= j < entries.len() && entries[j].0@ == t ==> names_metric(entries, t),
        names_metric(entries, t) ==> exists|k: int| 0 <= k < entries.len() && entries[k].0@ == t,
{
}

/// The values of a series are those of its points, in place.
pub proof fn lemma_point_values_in_place(points: Seq<SeriesPoint>)
    ensures
        point_values(points).len() == points.len(),
        forall|i: int| 0 <= i < points.len() ==> #[trigger] point_values(points)[i] == points[i].value,
{
}

/// A metric's name is among the names of the runs exactly when some entry
/// of some run carries it; in a sorted list of names each comes before the
/// next.
pub proof fn lemma_names_meaning(stats: Seq<Stats>, t: Seq<char>, names: Seq<Seq<char>>, a: int)
    ensures
        some_run_names(stats, t) <==> exists|i: int, j: int|
            0 <= i < stats.len() && 0 <= j < stats[i].metrics@.len() && (
            #[trigger] stats[i].metrics@[j]).0@ == t,
        strictly_sorted(names) && 0 <= a && a + 1 < names.len() ==> text_less(
            names[a],
            names[a + 1],
        ),
{
    if some_run_names(stats, t) {
        let i = choose|i: int| 0 <= i < stats.len() && names_metric(#[trigger] stats[i].metrics@, t);
        let j = choose|j: int|
            0 <= j < stats[i].metrics@.len() && (#[trigger] stats[i].metrics@[j]).0@ == t;
        assert(stats[i].metrics@[j].0@ == t);
    }
    if exists|i: int, j: int|
        0 <= i < stats.len() && 0 <= j < stats[i].metrics@.len() && (
        #[trigger] stats[i].metrics@[j]).0@ == t {
        let (i, j) = choose|i: int, j: int|
            0 <= i < stats.len() && 0 <= j < stats[i].metrics@.len() && (
            #[trigger] stats[i].metrics@[j]).0@ == t;
        assert(names_metric(stats[i].metrics@, t));
    }
}

/// Whether one of the entries is named `t`.
pub open spec fn names_metric(entries: Seq<(String, u64)>, t: Seq<char>) -> bool {
    exists|j: int| 0 <= j < entries.len() && (#[trigger] entries[j]).0@ == t
}

/// Whether one of the runs has a metric named `t`.
pub open spec fn some_run_names(stats: Seq<Stats>, t: Seq<char>) -> bool {
    exists|i: int| 0 <= i < stats.len() && names_metric(#[trigger] stats[i].metrics@, t)
}

/// Adds `name` to the sorted list `names` unless it is there already.
fn insert_name(names: &mut Vec<String>, name: &String)
    requires
        strictly_sorted(crate::texts(old(names)@)),
    ensures
        strictly_sorted(crate::texts(final(names)@)),
        forall|t: Seq<char>|
            crate::texts(final(names)@).contains(t) <==> (crate::texts(old(names)@).contains(t)
                || t == name@),
{
    let ghost before = crate::texts(names@);
    let mut p: usize = 0;
    while p < names.len() && less_than(names[p].as_str(), name.as_str())
        invariant
            0 <= p <= names.len(),
            before == crate::texts(names@),
            forall|k: int| 0 <= k < p ==> text_less(#[trigger] before[k], name@),
        decreases names.len() - p,
    {
        p = p + 1;
    }
    if p < names.len() && names[p] == *name {
        assert(before[p as int] == name@);
        return;
    }
    names.insert(p, name.clone());
    proof {
        let after = crate::texts(names@);
        assert(after =~= before.insert(p as int, name@));
        before.insert_ensures(p as int, name@);
        if p < before.len() {
            assert(!text_less(before[p as int], name@));
            assert(before[p as int] != name@);
            lemma_text_less_total(before[p as int], name@);
        }
        assert forall|a: int, b: int| 0 <= a < b < after.len() implies text_less(
            #[trigger] after[a],
            #[trigger] after[b],
        ) by {
            if b < p {
                assert(after[a] == before[a] && after[b] == before[b]);
            } else if b == p {
                assert(after[a] == before[a]);
            } else if a < p {
                assert(after[a] == before[a] && after[b] == before[b - 1]);
            } else if a == p {
                assert(after[b] == before[b - 1]);
                if b - 1 > p {
                    lemma_text_less_transitive(name@, before[p as int], before[b - 1]);
                }
            } else {
                assert(after[a] == before[a - 1] && after[b] == before[b - 1]);
            }
        }
        assert forall|t: Seq<char>| after.contains(t) <==> (before.contains(t) || t == name@) by {
            if after.contains(t) {
                let m = choose|m: int| 0 <= m < after.len() && after[m] == t;
                if m < p {
                    assert(before[m] == t);
                } else if m > p {
                    assert(before[m - 1] == t);
                }
            }
            if before.contains(t) {
                let m = choose|m: int| 0 <= m < before.len() && before[m] == t;
                if m < p {
                    assert(after[m] == t);
                } else {
                    assert(after[m + 1] == t);
                }
            }
            if t == name@ {
                assert(after[p as int] == t);
            }
        }
    }
}

/// The names of all metrics of all runs, each once, in increasing order.
pub fn metric_names(stats: &Vec<Stats>) -> (names: Vec<String>)
    ensures
        strictly_sorted(crate::texts(names@)),
        forall|t: Seq<char>| crate::texts(names@).contains(t) <==> some_run_names(stats@, t),
{
    let mut names: Vec<String> = Vec::new();
    let mut i: usize = 0;
    assert(crate::texts(names@) =~= Seq::empty());
    while i < stats.len()
        invariant
            0 <= i <= stats.len(),
            strictly_sorted(crate::texts(names@)),
            forall|t: Seq<char>|
                crate::texts(names@).contains(t) <==> some_run_names(stats@.take(i as int), t),
        decreases stats.len() - i,
    {
        let entries = &stats[i].metrics;
        let mut j: usize = 0;
        while j < entries.len()
            invariant
                0 <= j <= entries.len(),
                i < stats.len(),
                entries@ == stats@[i as int].metrics@,
                strictly_sorted(crate::texts(names@)),
                forall|t: Seq<char>|
                    crate::texts(names@).contains(t) <==> (some_run_names(
                        stats@.take(i as int),
                        t,
                    ) || names_metric(entries@.take(j as int), t)),
            decreases entries.len() - j,
        {
            let ghost prev = crate::texts(names@);
            insert_name(&mut names, &entries[j].0);
            proof {
                assert forall|t: Seq<char>|
                    names_metric(entries@.take(j + 1), t) <==> (names_metric(
                        entries@.take(j as int),
                        t,
                    ) || t == entries@[j as int].0@) by {
                    if names_metric(entries@.take(j + 1), t) {
                        let m = choose|m: int|
                            0 <= m < j + 1 && (#[trigger] entries@.take(j + 1)[m]).0@ == t;
                        if m < j {
                            assert(entries@.take(j as int)[m] == entries@[m]);
                        }
                    }
                    if names_metric(entries@.take(j as int), t) {
                        let m = choose|m: int|
                            0 <= m < j && (#[trigger] entries@.take(j as int)[m]).0@ == t;
                        assert(entries@.take(j + 1)[m] == entries@[m]);
                    }
                    if t == entries@[j as int].0@ {
                        assert(entries@.take(j + 1)[j as int] == entries@[j as int]);
                    }
                }
                assert forall|t: Seq<char>|
                    crate::texts(names@).contains(t) <==> (some_run_names(
                        stats@.take(i as int),
                        t,
                    ) || names_metric(entries@.take(j + 1), t)) by {
                    assert(crate::texts(names@).contains(t) <==> (prev.contains(t) || t
                        == entries@[j as int].0@));
                    assert(prev.contains(t) <==> (some_run_names(stats@.take(i as int), t)
                        || names_metric(entries@.take(j as int), t)));
                }
            }
            j = j + 1;
        }
        proof {
            assert(entries@.take(entries.len() as int) =~= entries@);
            assert forall|t: Seq<char>|
                some_run_names(stats@.take(i + 1), t) <==> (some_run_names(
                    stats@.take(i as int),
                    t,
                ) || names_metric(entries@, t)) by {
                if some_run_names(stats@.take(i + 1), t) {
                    let m = choose|m: int|
                        0 <= m < i + 1 && names_metric(#[trigger] stats@.take(i + 1)[m].metrics@, t);
                    if m < i {
                        assert(stats@.take(i as int)[m] == stats@[m]);
                    }
                }
                if some_run_names(stats@.take(i as int), t) {
                    let m = choose|m: int|
                        0 <= m < i && names_metric(#[trigger] stats@.take(i as int)[m].metrics@, t);
                    assert(stats@.take(i + 1)[m] == stats@[m]);
                }
                if names_metric(entries@, t) {
                    assert(stats@.take(i + 1)[i as int] == stats@[i as int]);
                }
            }
        }
        i = i + 1;
    }
    assert(stats@.take(stats.len() as int) =~= stats@);
    names
}

impl Stats {
    /// The value of the metric `name`, if this run measured it.
    pub fn metric(&self, name: &str) -> (r: Option<u64>)
        ensures
            r == metric_lookup(self.metrics@, name@),
    {
        metric_value(&self.metrics, name)
    }
}

} // verus!
