//! Which partitions a run of the lifecycle manager persists, and in which order.

use crate::lifecycle::{LifecycleStats, LifecycleView, PartitionId, PartitionLifecycleStats};
use vstd::prelude::*;

verus! {

use crate::lifecycle::{
    ascending,
    is_snapshot,
    lemma_map_bytes_remove,
    lemma_snapshot_bytes,
    logged,
    map_bytes,
    seq_bytes,
};

/// How long before `now` the first write came; nothing if it came after.
pub open spec fn age_at(now: u128, first_write: u128) -> nat {
    if first_write <= now {
        (now - first_write) as nat
    } else {
        0
    }
}

/// The partition is over the size or age threshold.
pub open spec fn is_due(view: LifecycleView, now: u128, stats: PartitionLifecycleStats) -> bool {
    ||| age_at(now, stats.first_write) > view.partition_age_threshold
    ||| stats.bytes_written > view.partition_size_threshold
}

/// The partitions over a threshold, in their order.
pub open spec fn due(
    view: LifecycleView,
    now: u128,
    stats: Seq<PartitionLifecycleStats>,
) -> Seq<PartitionLifecycleStats> {
    stats.filter(|s: PartitionLifecycleStats| is_due(view, now, s))
}

/// The partitions under both thresholds, in their order.
pub open spec fn spared(
    view: LifecycleView,
    now: u128,
    stats: Seq<PartitionLifecycleStats>,
) -> Seq<PartitionLifecycleStats> {
    stats.filter(|s: PartitionLifecycleStats| !is_due(view, now, s))
}

/// Larger partitions go first, and of equally large ones that with the smaller identifier.
pub open spec fn ranks_before(a: PartitionLifecycleStats, b: PartitionLifecycleStats) -> bool {
    ||| a.bytes_written > b.bytes_written
    ||| a.bytes_written == b.bytes_written && a.partition_id.id < b.partition_id.id
}

/// `ranked` holds what `rest` holds, largest first.
pub open spec fn is_ranking(
    rest: Seq<PartitionLifecycleStats>,
    ranked: Seq<PartitionLifecycleStats>,
) -> bool {
    &&& ranked.to_multiset() == rest.to_multiset()
    &&& forall|i: int, j: int|
        0 <= i < j < ranked.len() ==> #[trigger] ranks_before(ranked[i], ranked[j])
}

/// `count` is the least number of leading partitions, one at least, that has to go, out of
/// `total` bytes, until less than `threshold` bytes are left; all of them if that never happens.
pub open spec fn is_shed_count(
    ranked: Seq<PartitionLifecycleStats>,
    total: int,
    threshold: int,
    count: int,
) -> bool {
    &&& 0 <= count <= ranked.len()
    &&& count == ranked.len() || (count > 0 && total - seq_bytes(ranked.take(count)) < threshold)
    &&& forall|c: int| 0 < c < count ==> total - #[trigger] seq_bytes(ranked.take(c)) >= threshold
}

/// `plan` persists, out of the partitions of `stats`, every one that is over its size or age
/// threshold and then, if what is left is over the memory threshold, as many more as it takes,
/// largest first, to get below that threshold.
pub open spec fn is_persist_plan(
    view: LifecycleView,
    now: u128,
    stats: Seq<PartitionLifecycleStats>,
    plan: Seq<PartitionLifecycleStats>,
) -> bool {
    let first = due(view, now, stats);
    let left = seq_bytes(stats) - seq_bytes(first);
    if left <= view.persist_memory_threshold {
        plan == first
    } else {
        exists|ranked: Seq<PartitionLifecycleStats>, count: int|
            {
                &&& #[trigger] is_ranking(spared(view, now, stats), ranked)
                &&& #[trigger] is_shed_count(
                    ranked,
                    left,
                    view.persist_memory_threshold as int,
                    count,
                )
                &&& plan == first + ranked.take(count)
            }
    }
}

/// The partitions of a plan, in its order.
pub open spec fn plan_ids(plan: Seq<PartitionLifecycleStats>) -> Seq<PartitionId> {
    plan.map_values(|s: PartitionLifecycleStats| s.partition_id)
}

/// `ids` are the partitions that a run at `now` persists, in the order of the plan.
pub open spec fn is_persist_run(view: LifecycleView, now: u128, ids: Seq<PartitionId>) -> bool {
    exists|stats: Seq<PartitionLifecycleStats>, plan: Seq<PartitionLifecycleStats>|
        {
            &&& is_snapshot(view.partitions, stats)
            &&& #[trigger] is_persist_plan(view, now, stats, plan)
            &&& ids == plan_ids(plan)
        }
}

/// The manager without the given partitions.
pub open spec fn without(view: LifecycleView, ids: Seq<PartitionId>) -> LifecycleView {
    LifecycleView {
        partitions: view.partitions.restrict(
            Set::new(|k: i64| !ids.contains(PartitionId { id: k })),
        ),
        ..view
    }
}

pub proof fn lemma_without_push(view: LifecycleView, ids: Seq<PartitionId>, id: PartitionId)
    ensures
        without(view, ids.push(id)).partitions == without(view, ids).partitions.remove(id.id),
{
    assert forall|k: i64| #[trigger] ids.push(id).contains(PartitionId { id: k }) <==> (ids.contains(
        PartitionId { id: k },
    ) || k == id.id) by {
        let p = PartitionId { id: k };
        if ids.contains(p) {
            let i = ids.index_of(p);
            assert(ids.push(id)[i] == p);
        }
        if k == id.id {
            assert(ids.push(id)[ids.len() as int] == p);
        }
    }
    assert(without(view, ids.push(id)).partitions =~= without(view, ids).partitions.remove(id.id));
}

pub proof fn lemma_seq_bytes_push(
    stats: Seq<PartitionLifecycleStats>,
    last: PartitionLifecycleStats,
)
    ensures
        seq_bytes(stats.push(last)) == seq_bytes(stats) + last.bytes_written,
{
    assert(stats.push(last).drop_last() =~= stats);
}

pub proof fn lemma_seq_bytes_take(stats: Seq<PartitionLifecycleStats>, i: int)
    requires
        0 <= i <= stats.len(),
    ensures
        seq_bytes(stats.take(i)) <= seq_bytes(stats),
    decreases stats.len(),
{
    if i < stats.len() {
        lemma_seq_bytes_take(stats.drop_last(), i);
        assert(stats.drop_last().take(i) =~= stats.take(i));
    } else {
        assert(stats.take(i) =~= stats);
    }
}

pub proof fn lemma_seq_bytes_take_next(stats: Seq<PartitionLifecycleStats>, i: int)
    requires
        0 <= i < stats.len(),
    ensures
        stats.take(i + 1) == stats.take(i).push(stats[i]),
        seq_bytes(stats.take(i + 1)) == seq_bytes(stats.take(i)) + stats[i].bytes_written,
        seq_bytes(stats.take(i)) + stats[i].bytes_written <= seq_bytes(stats),
{
    assert(stats.take(i + 1) =~= stats.take(i).push(stats[i]));
    lemma_seq_bytes_push(stats.take(i), stats[i]);
    lemma_seq_bytes_take(stats, i + 1);
}

pub proof fn lemma_seq_bytes_remove(stats: Seq<PartitionLifecycleStats>, i: int)
    requires
        0 <= i < stats.len(),
    ensures
        seq_bytes(stats) == seq_bytes(stats.remove(i)) + stats[i].bytes_written,
    decreases stats.len(),
{
    if i == stats.len() - 1 {
        assert(stats.remove(i) =~= stats.drop_last());
    } else {
        lemma_seq_bytes_remove(stats.drop_last(), i);
        assert(stats.remove(i).drop_last() =~= stats.drop_last().remove(i));
    }
}

/// The bytes of partitions do not depend on their order.
pub proof fn lemma_seq_bytes_permuted(
    a: Seq<PartitionLifecycleStats>,
    b: Seq<PartitionLifecycleStats>,
)
    requires
        a.to_multiset() == b.to_multiset(),
    ensures
        seq_bytes(a) == seq_bytes(b),
        a.len() == b.len(),
    decreases a.len(),
{
    a.to_multiset_ensures();
    b.to_multiset_ensures();
    if a.len() > 0 {
        assert(a.contains(a.last()));
        assert(b.to_multiset().count(a.last()) > 0);
        let i = b.index_of(a.last());
        assert(a.drop_last() =~= a.remove(a.len() - 1));
        lemma_seq_bytes_permuted(a.drop_last(), b.remove(i));
        lemma_seq_bytes_remove(b, i);
    }
}

/// Every partition is either due or spared.
pub proof fn lemma_due_and_spared_bytes(
    view: LifecycleView,
    now: u128,
    stats: Seq<PartitionLifecycleStats>,
)
    ensures
        seq_bytes(stats) == seq_bytes(due(view, now, stats)) + seq_bytes(spared(view, now, stats)),
    decreases stats.len(),
{
    reveal(Seq::filter);
    if stats.len() > 0 {
        let rest = stats.drop_last();
        lemma_due_and_spared_bytes(view, now, rest);
        lemma_due_push(view, now, rest, stats.last());
        assert(rest.push(stats.last()) =~= stats);
        if is_due(view, now, stats.last()) {
            lemma_seq_bytes_push(due(view, now, rest), stats.last());
        } else {
            lemma_seq_bytes_push(spared(view, now, rest), stats.last());
        }
    }
}

proof fn lemma_due_push(
    view: LifecycleView,
    now: u128,
    stats: Seq<PartitionLifecycleStats>,
    last: PartitionLifecycleStats,
)
    ensures
        is_due(view, now, last) ==> {
            &&& due(view, now, stats.push(last)) == due(view, now, stats).push(last)
            &&& spared(view, now, stats.push(last)) == spared(view, now, stats)
        },
        !is_due(view, now, last) ==> {
            &&& due(view, now, stats.push(last)) == due(view, now, stats)
            &&& spared(view, now, stats.push(last)) == spared(view, now, stats).push(last)
        },
{
    stats.lemma_filter_push(last, |s: PartitionLifecycleStats| is_due(view, now, s));
    stats.lemma_filter_push(last, |s: PartitionLifecycleStats| !is_due(view, now, s));
}

/// What a filter keeps of an ascending sequence ascends and comes from it.
proof fn lemma_filter_ascending(
    stats: Seq<PartitionLifecycleStats>,
    keep: spec_fn(PartitionLifecycleStats) -> bool,
)
    requires
        ascending(stats),
    ensures
        ascending(stats.filter(keep)),
        forall|i: int|
            0 <= i < stats.filter(keep).len() ==> {
                &&& stats.contains(#[trigger] stats.filter(keep)[i])
                &&& keep(stats.filter(keep)[i])
            },
        forall|s: PartitionLifecycleStats|
            #![trigger stats.filter(keep).contains(s)]
            stats.contains(s) && keep(s) ==> stats.filter(keep).contains(s),
    decreases stats.len(),
{
    broadcast use vstd::seq_lib::group_filter_ensures;

    if stats.len() > 0 {
        let rest = stats.drop_last();
        let last = stats.last();
        let kept = rest.filter(keep);
        lemma_filter_ascending(rest, keep);
        rest.lemma_filter_push(last, keep);
        assert(rest.push(last) =~= stats);
        assert forall|i: int| 0 <= i < kept.len() implies (#[trigger] kept[i]).partition_id.id
            < last.partition_id.id by {
            let j = rest.index_of(kept[i]);
            assert(stats[j] == kept[i]);
        }
        assert forall|s: PartitionLifecycleStats| stats.contains(s) && keep(s) implies stats.filter(
            keep,
        ).contains(s) by {
            let j = stats.index_of(s);
            assert(keep(stats[j]));
        }
    }
}

/// Orders partitions by size, largest first, and equally large ones by identifier.
fn rank(rest: &Vec<PartitionLifecycleStats>) -> (ranked: Vec<PartitionLifecycleStats>)
    requires
        ascending(rest@),
    ensures
        is_ranking(rest@, ranked@),
{
    let mut ranked: Vec<PartitionLifecycleStats> = Vec::new();
    assert(rest@.take(0) =~= ranked@);
    for i in 0..rest.len()
        invariant
            ascending(rest@),
            is_ranking(rest@.take(i as int), ranked@),
    {
        let s = rest[i];
        let mut at: usize = 0;
        while at < ranked.len() && ranked[at].bytes_written >= s.bytes_written
            invariant
                at <= ranked@.len(),
                forall|j: int| 0 <= j < at ==> (#[trigger] ranked@[j]).bytes_written
                    >= s.bytes_written,
            decreases ranked@.len() - at,
        {
            at = at + 1;
        }
        let ghost before = ranked@;
        proof {
            assert forall|j: int| 0 <= j < before.len() implies (#[trigger] before[j]).partition_id.id
                < s.partition_id.id by {
                before.to_multiset_ensures();
                rest@.take(i as int).to_multiset_ensures();
                assert(before.contains(before[j]));
                assert(before.to_multiset().count(before[j]) > 0);
                assert(rest@.take(i as int).contains(before[j]));
                let k = rest@.take(i as int).index_of(before[j]);
                assert(rest@[k] == before[j]);
            }
            assert forall|j: int| at <= j < before.len() implies (#[trigger] before[j]).bytes_written
                < s.bytes_written by {
                if j > at {
                    assert(ranks_before(before[at as int], before[j]));
                }
            }
        }
        ranked.insert(at, s);
        proof {
            vstd::seq_lib::to_multiset_insert(before, at as int, s);
            rest@.take(i as int).to_multiset_ensures();
            assert(rest@.take(i + 1) =~= rest@.take(i as int).push(s));
            assert forall|j: int, k: int| 0 <= j < k < ranked@.len() implies #[trigger] ranks_before(
                ranked@[j],
                ranked@[k],
            ) by {
                if j < at && k > at {
                    assert(ranks_before(before[j], before[k - 1]));
                } else if j > at {
                    assert(ranks_before(before[j - 1], before[k - 1]));
                } else if k < at {
                    assert(ranks_before(before[j], before[k]));
                }
            }
        }
    }
    assert(rest@.take(rest@.len() as int) =~= rest@);
    ranked
}

/// The partitions of a snapshot that are to be persisted at `now`, in the order in which
/// persistence is triggered.
pub(crate) fn select_partitions(
    stats: LifecycleStats,
    now: u128,
    persist_memory_threshold: usize,
    partition_size_threshold: usize,
    partition_age_threshold: u128,
    Ghost(view): Ghost<LifecycleView>,
) -> (plan: Vec<PartitionLifecycleStats>)
    requires
        ascending(stats.partition_stats@),
        stats.total_bytes == seq_bytes(stats.partition_stats@),
        view.persist_memory_threshold == persist_memory_threshold,
        view.partition_size_threshold == partition_size_threshold,
        view.partition_age_threshold == partition_age_threshold,
    ensures
        is_persist_plan(view, now, stats.partition_stats@, plan@),
{
    let partition_stats = stats.partition_stats;
    let ghost all = partition_stats@;
    let mut total_bytes = stats.total_bytes;
    let mut to_persist: Vec<PartitionLifecycleStats> = Vec::new();
    let mut rest: Vec<PartitionLifecycleStats> = Vec::new();

    // get anything over the threshold size or age to persist
    for i in 0..partition_stats.len()
        invariant
            all == partition_stats@,
            view.persist_memory_threshold == persist_memory_threshold,
            view.partition_size_threshold == partition_size_threshold,
            view.partition_age_threshold == partition_age_threshold,
            to_persist@ == due(view, now, all.take(i as int)),
            rest@ == spared(view, now, all.take(i as int)),
            seq_bytes(to_persist@) + seq_bytes(rest@) == seq_bytes(all.take(i as int)),
            total_bytes == seq_bytes(all) - seq_bytes(to_persist@),
    {
        let s = partition_stats[i];
        let age: u128 = if s.first_write <= now { now - s.first_write } else { 0 };
        proof {
            lemma_seq_bytes_take_next(all, i as int);
            lemma_due_push(view, now, all.take(i as int), s);
            lemma_seq_bytes_push(to_persist@, s);
            lemma_seq_bytes_push(rest@, s);
        }
        if age > partition_age_threshold || s.bytes_written > partition_size_threshold {
            total_bytes = total_bytes - s.bytes_written;
            to_persist.push(s);
        } else {
            rest.push(s);
        }
    }
    assert(all.take(all.len() as int) =~= all);
    proof {
        lemma_filter_ascending(all, |s: PartitionLifecycleStats| !is_due(view, now, s));
    }
    let ghost first = to_persist@;
    let ghost after_due = total_bytes as int;

    // if we're still over the memory threshold, persist as many of the largest partitions
    // until we're under.
    if total_bytes > persist_memory_threshold {
        let ranked = rank(&rest);
        proof {
            lemma_due_and_spared_bytes(view, now, all);
            lemma_seq_bytes_permuted(rest@, ranked@);
            assert(ranked@.take(0) =~= Seq::empty());
            assert(first + ranked@.take(0) =~= first);
        }
        let mut i: usize = 0;
        while i < ranked.len()
            invariant_except_break
                i <= ranked@.len(),
                total_bytes == after_due - seq_bytes(ranked@.take(i as int)),
                to_persist@ == first + ranked@.take(i as int),
                after_due == seq_bytes(ranked@),
                forall|c: int|
                    0 < c <= i ==> after_due - #[trigger] seq_bytes(ranked@.take(c))
                        >= persist_memory_threshold,
            ensures
                i <= ranked@.len(),
                to_persist@ == first + ranked@.take(i as int),
                i == ranked@.len() || (i > 0 && after_due - seq_bytes(ranked@.take(i as int))
                    < persist_memory_threshold),
                forall|c: int|
                    0 < c < i ==> after_due - #[trigger] seq_bytes(ranked@.take(c))
                        >= persist_memory_threshold,
            decreases ranked@.len() - i,
        {
            let s = ranked[i];
            proof {
                lemma_seq_bytes_take_next(ranked@, i as int);
            }
            total_bytes = total_bytes - s.bytes_written;
            assert(first + ranked@.take(i + 1) =~= (first + ranked@.take(i as int)).push(s));
            to_persist.push(s);
            i = i + 1;
            if total_bytes < persist_memory_threshold {
                break;
            }
        }
        assert(is_ranking(spared(view, now, all), ranked@));
        assert(is_shed_count(
            ranked@,
            seq_bytes(all) - seq_bytes(due(view, now, all)),
            view.persist_memory_threshold as int,
            i as int,
        ));
    }
    to_persist
}

/// The partitions of a plan are tracked, and none occurs twice.
proof fn lemma_plan_members(
    view: LifecycleView,
    now: u128,
    stats: Seq<PartitionLifecycleStats>,
    plan: Seq<PartitionLifecycleStats>,
)
    requires
        is_snapshot(view.partitions, stats),
        is_persist_plan(view, now, stats, plan),
    ensures
        forall|i: int| 0 <= i < plan.len() ==> stats.contains(#[trigger] plan[i]),
        forall|i: int, j: int|
            0 <= i < j < plan.len() ==> (#[trigger] plan[i]).partition_id.id != (
            #[trigger] plan[j]).partition_id.id,
        forall|s: PartitionLifecycleStats| #[trigger]
            stats.contains(s) && is_due(view, now, s) ==> plan.contains(s),
        seq_bytes(stats) - seq_bytes(plan) <= view.persist_memory_threshold,
        seq_bytes(plan) <= seq_bytes(stats),
{
    let first = due(view, now, stats);
    let rest = spared(view, now, stats);
    let left = seq_bytes(stats) - seq_bytes(first);
    lemma_filter_ascending(stats, |s: PartitionLifecycleStats| is_due(view, now, s));
    lemma_filter_ascending(stats, |s: PartitionLifecycleStats| !is_due(view, now, s));
    lemma_due_and_spared_bytes(view, now, stats);
    assert forall|s: PartitionLifecycleStats| #[trigger]
        stats.contains(s) && is_due(view, now, s) implies first.contains(s) by {
    }
    if left > view.persist_memory_threshold {
        let (ranked, count) = choose|ranked: Seq<PartitionLifecycleStats>, count: int|
            {
                &&& #[trigger] is_ranking(rest, ranked)
                &&& #[trigger] is_shed_count(
                    ranked,
                    left,
                    view.persist_memory_threshold as int,
                    count,
                )
                &&& plan == first + ranked.take(count)
            };
        let extra = ranked.take(count);
        ranked.to_multiset_ensures();
        rest.to_multiset_ensures();
        assert forall|i: int| 0 <= i < extra.len() implies {
            &&& rest.contains(#[trigger] extra[i])
            &&& stats.contains(extra[i])
            &&& !is_due(view, now, extra[i])
        } by {
            assert(ranked.contains(ranked[i]));
            assert(ranked.to_multiset().count(ranked[i]) > 0);
            assert(rest.contains(extra[i]));
            let k = rest.index_of(extra[i]);
            assert(rest[k] == extra[i]);
        }
        assert forall|i: int| 0 <= i < plan.len() implies stats.contains(#[trigger] plan[i]) by {
            if i < first.len() {
                assert(plan[i] == first[i]);
            } else {
                assert(plan[i] == extra[i - first.len()]);
            }
        }
        assert forall|i: int, j: int| 0 <= i < j < plan.len() implies (
        #[trigger] plan[i]).partition_id.id != (#[trigger] plan[j]).partition_id.id by {
            if plan[i].partition_id.id == plan[j].partition_id.id {
                assert(view.partitions[plan[i].partition_id.id] == plan[i]) by {
                    let k = stats.index_of(plan[i]);
                    assert(stats[k] == plan[i]);
                }
                assert(view.partitions[plan[j].partition_id.id] == plan[j]) by {
                    let k = stats.index_of(plan[j]);
                    assert(stats[k] == plan[j]);
                }
                if j < first.len() {
                    assert(first[i].partition_id.id < first[j].partition_id.id);
                } else if i < first.len() {
                    assert(is_due(view, now, first[i]));
                    assert(!is_due(view, now, extra[j - first.len()]));
                } else {
                    assert(ranks_before(ranked[i - first.len()], ranked[j - first.len()]));
                }
            }
        }
        assert forall|s: PartitionLifecycleStats| #[trigger]
            stats.contains(s) && is_due(view, now, s) implies plan.contains(s) by {
            let k = first.index_of(s);
            assert(plan[k] == s);
        }
        lemma_seq_bytes_concat(first, extra);
        lemma_seq_bytes_permuted(rest, ranked);
        lemma_seq_bytes_take(ranked, count);
        if count == ranked.len() {
            assert(extra =~= ranked);
        }
    }
}

proof fn lemma_seq_bytes_concat(
    a: Seq<PartitionLifecycleStats>,
    b: Seq<PartitionLifecycleStats>,
)
    ensures
        seq_bytes(a + b) == seq_bytes(a) + seq_bytes(b),
    decreases b.len(),
{
    if b.len() == 0 {
        assert(a + b =~= a);
    } else {
        lemma_seq_bytes_concat(a, b.drop_last());
        assert((a + b).drop_last() =~= a + b.drop_last());
    }
}

/// Taking distinct tracked partitions out takes their bytes out.
proof fn lemma_without_bytes(view: LifecycleView, plan: Seq<PartitionLifecycleStats>)
    requires
        view.partitions.dom().finite(),
        forall|i: int|
            0 <= i < plan.len() ==> {
                &&& view.partitions.contains_key((#[trigger] plan[i]).partition_id.id)
                &&& view.partitions[plan[i].partition_id.id] == plan[i]
            },
        forall|i: int, j: int|
            0 <= i < j < plan.len() ==> (#[trigger] plan[i]).partition_id.id != (
            #[trigger] plan[j]).partition_id.id,
    ensures
        without(view, plan_ids(plan)).partitions.dom().finite(),
        without(view, plan_ids(plan)).total_bytes() + seq_bytes(plan) == view.total_bytes(),
    decreases plan.len(),
{
    if plan.len() == 0 {
        assert(without(view, plan_ids(plan)).partitions =~= view.partitions);
    } else {
        let rest = plan.drop_last();
        let last = plan.last();
        lemma_without_bytes(view, rest);
        assert(plan_ids(plan) =~= plan_ids(rest).push(last.partition_id));
        lemma_without_push(view, plan_ids(rest), last.partition_id);
        let before = without(view, plan_ids(rest)).partitions;
        assert(before.contains_key(last.partition_id.id)) by {
            if plan_ids(rest).contains(last.partition_id) {
                let i = plan_ids(rest).index_of(last.partition_id);
                assert(plan[i].partition_id.id != plan[plan.len() - 1].partition_id.id);
            }
        }
        lemma_map_bytes_remove(before, last.partition_id.id);
    }
}

/// After a run the tracked bytes are within the memory threshold, whatever was logged before.
pub proof fn law_persist_run_bounds_memory(view: LifecycleView, now: u128, ids: Seq<PartitionId>)
    requires
        view.valid(),
        is_persist_run(view, now, ids),
    ensures
        without(view, ids).total_bytes() <= view.persist_memory_threshold,
{
    let (stats, plan) = choose|
        stats: Seq<PartitionLifecycleStats>,
        plan: Seq<PartitionLifecycleStats>,
    |
        {
            &&& is_snapshot(view.partitions, stats)
            &&& #[trigger] is_persist_plan(view, now, stats, plan)
            &&& ids == plan_ids(plan)
        };
    lemma_snapshot_bytes(view.partitions, stats);
    lemma_plan_members(view, now, stats, plan);
    assert forall|i: int| 0 <= i < plan.len() implies {
        &&& view.partitions.contains_key((#[trigger] plan[i]).partition_id.id)
        &&& view.partitions[plan[i].partition_id.id] == plan[i]
    } by {
        let k = stats.index_of(plan[i]);
        assert(stats[k] == plan[i]);
    }
    lemma_without_bytes(view, plan);
}

/// After a run no tracked partition is over its size or age threshold.
pub proof fn law_persist_run_clears_due(
    view: LifecycleView,
    now: u128,
    ids: Seq<PartitionId>,
    k: i64,
)
    requires
        view.valid(),
        is_persist_run(view, now, ids),
        without(view, ids).partitions.contains_key(k),
    ensures
        !is_due(view, now, without(view, ids).partitions[k]),
{
    let (stats, plan) = choose|
        stats: Seq<PartitionLifecycleStats>,
        plan: Seq<PartitionLifecycleStats>,
    |
        {
            &&& is_snapshot(view.partitions, stats)
            &&& #[trigger] is_persist_plan(view, now, stats, plan)
            &&& ids == plan_ids(plan)
        };
    lemma_plan_members(view, now, stats, plan);
    let s = view.partitions[k];
    if is_due(view, now, s) {
        assert(stats.contains(s));
        let i = plan.index_of(s);
        assert(plan_ids(plan)[i] == s.partition_id);
        assert(ids.contains(PartitionId { id: k }));
    }
}

/// What a plan persists, said with the numbers themselves. First come the partitions that are
/// older than the age threshold, or larger than the size threshold, every one of them, in the
/// order of their identifiers: there are `over` of them. Behind them come others, and only if
/// more bytes than the memory threshold are left without the first: the largest ones, of equally
/// large ones those with the smaller identifier, one at least, and no more than it takes to leave
/// less than that threshold.
pub proof fn law_plan_in_numbers(
    view: LifecycleView,
    now: u128,
    stats: Seq<PartitionLifecycleStats>,
    plan: Seq<PartitionLifecycleStats>,
) -> (over: int)
    requires
        ascending(stats),
        is_persist_plan(view, now, stats, plan),
    ensures
        0 <= over <= plan.len() <= stats.len(),
        // nothing is made up, and nothing occurs twice
        forall|i: int| 0 <= i < plan.len() ==> stats.contains(#[trigger] plan[i]),
        forall|i: int, j: int|
            0 <= i < j < plan.len() ==> (#[trigger] plan[i]).partition_id.id != (
            #[trigger] plan[j]).partition_id.id,
        // what comes first is too old or too large, and what comes behind it is neither
        forall|i: int|
            0 <= i < over ==> (#[trigger] plan[i]).first_write + view.partition_age_threshold < now
                || plan[i].bytes_written > view.partition_size_threshold,
        forall|i: int|
            over <= i < plan.len() ==> (#[trigger] plan[i]).first_write
                + view.partition_age_threshold >= now && plan[i].bytes_written
                <= view.partition_size_threshold,
        // whatever is left is neither
        forall|k: int|
            0 <= k < stats.len() && !plan.contains(#[trigger] stats[k]) ==> stats[k].first_write
                + view.partition_age_threshold >= now && stats[k].bytes_written
                <= view.partition_size_threshold,
        // the order
        forall|i: int, j: int|
            0 <= i < j < over ==> (#[trigger] plan[i]).partition_id.id < (
            #[trigger] plan[j]).partition_id.id,
        forall|i: int, j: int|
            over <= i < j < plan.len() ==> {
                ||| (#[trigger] plan[i]).bytes_written > (#[trigger] plan[j]).bytes_written
                ||| plan[i].bytes_written == plan[j].bytes_written && plan[i].partition_id.id
                    < plan[j].partition_id.id
            },
        // what is persisted for its size alone is larger than what is left
        forall|i: int, k: int|
            over <= i < plan.len() && 0 <= k < stats.len() && !plan.contains(stats[k]) ==> {
                ||| (#[trigger] plan[i]).bytes_written > (#[trigger] stats[k]).bytes_written
                ||| plan[i].bytes_written == stats[k].bytes_written && plan[i].partition_id.id
                    < stats[k].partition_id.id
            },
        // how much of it
        over < plan.len() <==> (over < stats.len() && seq_bytes(stats) - seq_bytes(plan.take(over))
            > view.persist_memory_threshold),
        over < plan.len() < stats.len() ==> seq_bytes(stats) - seq_bytes(plan)
            < view.persist_memory_threshold,
        forall|c: int|
            over < c < plan.len() ==> seq_bytes(stats) - #[trigger] seq_bytes(plan.take(c))
                >= view.persist_memory_threshold,
{
    let first = due(view, now, stats);
    let rest = spared(view, now, stats);
    let left = seq_bytes(stats) - seq_bytes(first);
    let keep_due = |s: PartitionLifecycleStats| is_due(view, now, s);
    let keep_spared = |s: PartitionLifecycleStats| !is_due(view, now, s);
    lemma_filter_ascending(stats, keep_due);
    lemma_filter_ascending(stats, keep_spared);
    lemma_due_and_spared_bytes(view, now, stats);
    lemma_due_and_spared_len(view, now, stats);
    if left <= view.persist_memory_threshold {
        assert(plan.take(first.len() as int) =~= plan);
        assert forall|k: int| 0 <= k < stats.len() && !plan.contains(#[trigger] stats[k]) implies
            !is_due(view, now, stats[k]) by {
            assert(stats.contains(stats[k]));
        }
    } else {
        let (ranked, count) = choose|ranked: Seq<PartitionLifecycleStats>, count: int|
            {
                &&& #[trigger] is_ranking(rest, ranked)
                &&& #[trigger] is_shed_count(
                    ranked,
                    left,
                    view.persist_memory_threshold as int,
                    count,
                )
                &&& plan == first + ranked.take(count)
            };
        ranked.to_multiset_ensures();
        rest.to_multiset_ensures();
        lemma_seq_bytes_permuted(rest, ranked);
        assert(plan.take(first.len() as int) =~= first);
        assert forall|i: int| 0 <= i < ranked.len() implies {
            &&& rest.contains(#[trigger] ranked[i])
            &&& stats.contains(ranked[i])
            &&& !is_due(view, now, ranked[i])
        } by {
            assert(ranked.contains(ranked[i]));
            assert(rest.to_multiset().count(ranked[i]) > 0);
            let k = rest.index_of(ranked[i]);
            assert(rest[k] == ranked[i]);
        }
        assert(ranked.len() > 0) by {
            if ranked.len() == 0 {
                assert(seq_bytes(rest) == 0);
            }
        }
        assert(count > 0);
        assert forall|i: int| 0 <= i < plan.len() implies stats.contains(#[trigger] plan[i]) by {
            if i < first.len() {
                assert(plan[i] == first[i]);
            } else {
                assert(plan[i] == ranked[i - first.len()]);
            }
        }
        assert forall|i: int| first.len() <= i < plan.len() implies !is_due(
            view,
            now,
            #[trigger] plan[i],
        ) by {
            assert(plan[i] == ranked[i - first.len()]);
        }
        assert forall|i: int, j: int| first.len() <= i < j < plan.len() implies ranks_before(
            #[trigger] plan[i],
            #[trigger] plan[j],
        ) by {
            assert(ranks_before(ranked[i - first.len()], ranked[j - first.len()]));
        }
        assert forall|i: int, j: int| 0 <= i < j < plan.len() implies (
        #[trigger] plan[i]).partition_id.id != (#[trigger] plan[j]).partition_id.id by {
            if i < first.len() && j >= first.len() {
                assert(plan[i] == first[i]);
                let a = stats.index_of(plan[i]);
                let b = stats.index_of(plan[j]);
                assert(stats[a] == plan[i] && stats[b] == plan[j]);
                if a == b {
                    assert(is_due(view, now, plan[i]));
                }
            } else if j < first.len() {
                assert(first[i].partition_id.id < first[j].partition_id.id);
            } else if plan[i].partition_id.id == plan[j].partition_id.id {
                let a = stats.index_of(plan[i]);
                let b = stats.index_of(plan[j]);
                assert(stats[a] == plan[i] && stats[b] == plan[j]);
                assert(ranks_before(plan[i], plan[j]));
                assert(a == b);
            }
        }
        assert forall|k: int| 0 <= k < stats.len() && !plan.contains(#[trigger] stats[k]) implies {
            &&& !is_due(view, now, stats[k])
            &&& forall|i: int|
                first.len() <= i < plan.len() ==> ranks_before(#[trigger] plan[i], stats[k])
        } by {
            let s = stats[k];
            assert(stats.contains(s));
            if is_due(view, now, s) {
                assert(first.contains(s));
                let at = first.index_of(s);
                assert(plan[at] == s);
            }
            assert(rest.contains(s));
            assert(rest.to_multiset().count(s) > 0);
            assert(ranked.contains(s));
            let j = ranked.index_of(s);
            if j < count {
                assert(plan[first.len() + j] == s);
            }
            assert forall|i: int| first.len() <= i < plan.len() implies ranks_before(
                #[trigger] plan[i],
                s,
            ) by {
                assert(ranks_before(ranked[i - first.len()], ranked[j]));
            }
        }
        assert forall|c: int| first.len() < c <= plan.len() implies #[trigger] seq_bytes(
            plan.take(c),
        ) == seq_bytes(first) + seq_bytes(ranked.take(c - first.len())) by {
            assert(plan.take(c) =~= first + ranked.take(c - first.len()));
            lemma_seq_bytes_concat(first, ranked.take(c - first.len()));
        }
        assert(plan.take(plan.len() as int) =~= plan);
        assert forall|c: int| first.len() < c < plan.len() implies seq_bytes(stats)
            - #[trigger] seq_bytes(plan.take(c)) >= view.persist_memory_threshold by {
            assert(left - seq_bytes(ranked.take(c - first.len()))
                >= view.persist_memory_threshold);
        }
    }
    first.len() as int
}

proof fn lemma_due_and_spared_len(
    view: LifecycleView,
    now: u128,
    stats: Seq<PartitionLifecycleStats>,
)
    ensures
        stats.len() == due(view, now, stats).len() + spared(view, now, stats).len(),
    decreases stats.len(),
{
    reveal(Seq::filter);
    if stats.len() > 0 {
        let rest = stats.drop_last();
        lemma_due_and_spared_len(view, now, rest);
        lemma_due_push(view, now, rest, stats.last());
        assert(rest.push(stats.last()) =~= stats);
    }
}

/// The bytes of a snapshot are those of its partitions added up.
pub proof fn law_bytes_add_up(
    stats: Seq<PartitionLifecycleStats>,
    partitions: Map<i64, PartitionLifecycleStats>,
    k: i64,
    s: PartitionLifecycleStats,
)
    requires
        partitions.dom().finite(),
        !partitions.contains_key(k),
    ensures
        seq_bytes(Seq::empty()) == 0,
        seq_bytes(stats.push(s)) == seq_bytes(stats) + s.bytes_written,
        map_bytes(Map::empty()) == 0,
        map_bytes(partitions.insert(k, s)) == map_bytes(partitions) + s.bytes_written,
{
    lemma_seq_bytes_push(stats, s);
    lemma_map_bytes_remove(partitions.insert(k, s), k);
    assert(partitions.insert(k, s).remove(k) =~= partitions);
    assert(Map::<i64, PartitionLifecycleStats>::empty().dom().len() == 0);
}

/// Taking partitions out takes these out, and no others, and leaves the rest as it is.
pub proof fn law_without(view: LifecycleView, ids: Seq<PartitionId>, k: i64)
    ensures
        without(view, ids).partitions.contains_key(k) <==> view.partitions.contains_key(k) && (
        forall|i: int| 0 <= i < ids.len() ==> (#[trigger] ids[i]).id != k),
        without(view, ids).partitions.contains_key(k) ==> without(view, ids).partitions[k]
            == view.partitions[k],
        without(view, ids).pause_ingest_size == view.pause_ingest_size,
        without(view, ids).persist_memory_threshold == view.persist_memory_threshold,
        without(view, ids).partition_size_threshold == view.partition_size_threshold,
        without(view, ids).partition_age_threshold == view.partition_age_threshold,
{
    if exists|i: int| 0 <= i < ids.len() && (#[trigger] ids[i]).id == k {
        let i = choose|i: int| 0 <= i < ids.len() && (#[trigger] ids[i]).id == k;
        assert(ids[i] == PartitionId { id: k });
        assert(ids.contains(PartitionId { id: k }));
    } else if ids.contains(PartitionId { id: k }) {
        let i = ids.index_of(PartitionId { id: k });
        assert(ids[i].id == k);
    }
}

/// What a run leaves and what it takes, said with the numbers themselves. A partition that is
/// still tracked is as it was, is not older than the age threshold and not larger than the size
/// threshold. Those that were come first, in the order of their identifiers: there are `over` of
/// them. Others are persisted only if more bytes than the memory threshold are left without the
/// first, largest first, and no more of them than it takes to leave less than that threshold.
#[verifier::rlimit(30)]
pub proof fn law_run_in_numbers(
    view: LifecycleView,
    now: u128,
    ids: Seq<PartitionId>,
    after: LifecycleView,
) -> (over: int)
    requires
        view.valid(),
        is_persist_run(view, now, ids),
        after == without(view, ids),
    ensures
        0 <= over <= ids.len(),
        forall|i: int|
            0 <= i < ids.len() ==> (i < over <==> view.partitions[(#[trigger] ids[i]).id].first_write
                + view.partition_age_threshold < now || view.partitions[ids[i].id].bytes_written
                > view.partition_size_threshold),
        forall|i: int, j: int|
            0 <= i < j < over ==> (#[trigger] ids[i]).id < (#[trigger] ids[j]).id,
        forall|i: int, j: int|
            over <= i < j < ids.len() ==> {
                let a = view.partitions[(#[trigger] ids[i]).id];
                let b = view.partitions[(#[trigger] ids[j]).id];
                ||| a.bytes_written > b.bytes_written
                ||| a.bytes_written == b.bytes_written && ids[i].id < ids[j].id
            },
        forall|i: int, k: i64|
            over <= i < ids.len() && #[trigger] after.partitions.contains_key(k) ==> {
                let a = view.partitions[(#[trigger] ids[i]).id];
                ||| a.bytes_written > after.partitions[k].bytes_written
                ||| a.bytes_written == after.partitions[k].bytes_written && ids[i].id < k
            },
        over < ids.len() ==> without(view, ids.take(over)).total_bytes()
            > view.persist_memory_threshold,
        over == ids.len() ==> after.total_bytes() <= view.persist_memory_threshold,
        over < ids.len() && (exists|k: i64| #[trigger] after.partitions.contains_key(k))
            ==> after.total_bytes() < view.persist_memory_threshold,
        forall|c: int|
            over < c < ids.len() ==> (#[trigger] without(view, ids.take(c))).total_bytes()
                >= view.persist_memory_threshold,
        forall|k: i64| #[trigger]
            after.partitions.contains_key(k) <==> view.partitions.contains_key(k) && !ids.contains(
                PartitionId { id: k },
            ),
        forall|k: i64| #[trigger]
            after.partitions.contains_key(k) ==> {
                &&& after.partitions[k] == view.partitions[k]
                &&& after.partitions[k].first_write + view.partition_age_threshold >= now
                &&& after.partitions[k].bytes_written <= view.partition_size_threshold
            },
        forall|i: int|
            0 <= i < ids.len() ==> view.partitions.contains_key((#[trigger] ids[i]).id),
        ids.no_duplicates(),
        forall|k: i64| #[trigger]
            view.partitions.contains_key(k) && (view.partitions[k].first_write
                + view.partition_age_threshold < now || view.partitions[k].bytes_written
                > view.partition_size_threshold) ==> ids.contains(PartitionId { id: k }),
        after.total_bytes() <= view.persist_memory_threshold,
        // with memory to spare, only what is too old or too large goes
        view.total_bytes() <= view.persist_memory_threshold ==> forall|i: int|
            0 <= i < ids.len() ==> view.partitions[(#[trigger] ids[i]).id].first_write
                + view.partition_age_threshold < now || view.partitions[ids[i].id].bytes_written
                > view.partition_size_threshold,
        after.pause_ingest_size == view.pause_ingest_size,
        after.persist_memory_threshold == view.persist_memory_threshold,
        after.partition_size_threshold == view.partition_size_threshold,
        after.partition_age_threshold == view.partition_age_threshold,
{
    let (stats, plan) = choose|
        stats: Seq<PartitionLifecycleStats>,
        plan: Seq<PartitionLifecycleStats>,
    |
        {
            &&& is_snapshot(view.partitions, stats)
            &&& #[trigger] is_persist_plan(view, now, stats, plan)
            &&& ids == plan_ids(plan)
        };
    let over = law_plan_in_numbers(view, now, stats, plan);
    law_persist_run_bounds_memory(view, now, ids);
    lemma_snapshot_bytes(view.partitions, stats);
    assert forall|i: int| 0 <= i < ids.len() implies {
        &&& view.partitions.contains_key((#[trigger] ids[i]).id)
        &&& view.partitions[ids[i].id] == plan[i]
    } by {
        assert(stats.contains(plan[i]));
        let k = stats.index_of(plan[i]);
        assert(stats[k] == plan[i]);
    }
    assert(ids.no_duplicates()) by {
        assert forall|i: int, j: int|
            0 <= i < ids.len() && 0 <= j < ids.len() && i != j implies ids[i] != ids[j] by {
            if i < j {
                assert(plan[i].partition_id.id != plan[j].partition_id.id);
            } else {
                assert(plan[j].partition_id.id != plan[i].partition_id.id);
            }
        }
    }
    assert forall|k: i64| #[trigger]
        view.partitions.contains_key(k) && !ids.contains(PartitionId { id: k }) implies {
        &&& view.partitions[k].first_write + view.partition_age_threshold >= now
        &&& view.partitions[k].bytes_written <= view.partition_size_threshold
    } by {
        let s = view.partitions[k];
        assert(stats.contains(s));
        let j = stats.index_of(s);
        assert(stats[j] == s);
        if plan.contains(s) {
            let i = plan.index_of(s);
            assert(ids[i] == PartitionId { id: k });
        }
    }
    if view.total_bytes() <= view.persist_memory_threshold {
        assert(over == plan.len());
        assert forall|i: int| 0 <= i < ids.len() implies view.partitions[(
        #[trigger] ids[i]).id].first_write + view.partition_age_threshold < now
            || view.partitions[ids[i].id].bytes_written > view.partition_size_threshold by {
            assert(view.partitions[ids[i].id] == plan[i]);
        }
    }
    assert forall|c: int| 0 <= c <= ids.len() implies (#[trigger] without(
        view,
        ids.take(c),
    )).total_bytes() == seq_bytes(stats) - seq_bytes(plan.take(c)) by {
        assert(ids.take(c) =~= plan_ids(plan.take(c)));
        assert forall|i: int| 0 <= i < c implies {
            &&& view.partitions.contains_key((#[trigger] plan.take(c)[i]).partition_id.id)
            &&& view.partitions[plan.take(c)[i].partition_id.id] == plan.take(c)[i]
        } by {
            assert(ids[i] == plan[i].partition_id);
        }
        assert forall|i: int, j: int| 0 <= i < j < c implies (#[trigger] plan.take(
            c,
        )[i]).partition_id.id != (#[trigger] plan.take(c)[j]).partition_id.id by {
            assert(plan[i].partition_id.id != plan[j].partition_id.id);
        }
        lemma_without_bytes(view, plan.take(c));
    }
    assert(ids.take(ids.len() as int) =~= ids);
    assert(plan.take(plan.len() as int) =~= plan);
    assert forall|i: int, k: i64|
        over <= i < ids.len() && #[trigger] after.partitions.contains_key(k) implies {
        let a = view.partitions[(#[trigger] ids[i]).id];
        ||| a.bytes_written > after.partitions[k].bytes_written
        ||| a.bytes_written == after.partitions[k].bytes_written && ids[i].id < k
    } by {
        let s = view.partitions[k];
        assert(stats.contains(s));
        let j = stats.index_of(s);
        assert(!plan.contains(stats[j])) by {
            if plan.contains(s) {
                let at = plan.index_of(s);
                assert(ids[at] == PartitionId { id: k });
                assert(ids.contains(PartitionId { id: k }));
            }
        }
        assert(view.partitions[ids[i].id] == plan[i]);
        assert(plan[i].bytes_written >= stats[j].bytes_written);
    }
    if over < ids.len() && exists|k: i64| #[trigger] after.partitions.contains_key(k) {
        let k = choose|k: i64| #[trigger] after.partitions.contains_key(k);
        let s = view.partitions[k];
        assert(stats.contains(s));
        assert(plan.len() < stats.len()) by {
            if plan.len() == stats.len() {
                assert(!plan.contains(s)) by {
                    if plan.contains(s) {
                        let at = plan.index_of(s);
                        assert(ids[at] == PartitionId { id: k });
                        assert(ids.contains(PartitionId { id: k }));
                    }
                }
                lemma_fewer_than_all(stats, plan, s);
            }
        }
    }
    over
}

/// What comes from a snapshot, nothing twice, and does not hold all of it is shorter.
proof fn lemma_fewer_than_all(
    stats: Seq<PartitionLifecycleStats>,
    plan: Seq<PartitionLifecycleStats>,
    missing: PartitionLifecycleStats,
)
    requires
        stats.contains(missing),
        !plan.contains(missing),
        forall|i: int| 0 <= i < plan.len() ==> stats.contains(#[trigger] plan[i]),
        forall|i: int, j: int|
            0 <= i < j < plan.len() ==> (#[trigger] plan[i]).partition_id.id != (
            #[trigger] plan[j]).partition_id.id,
    ensures
        plan.len() < stats.len(),
{
    assert(plan.no_duplicates()) by {
        assert forall|i: int, j: int|
            0 <= i < plan.len() && 0 <= j < plan.len() && i != j implies plan[i] != plan[j] by {
            if i < j {
                assert(plan[i].partition_id.id != plan[j].partition_id.id);
            } else {
                assert(plan[j].partition_id.id != plan[i].partition_id.id);
            }
        }
    }
    plan.unique_seq_to_set();
    let all = stats.to_set();
    assert(plan.to_set().insert(missing).subset_of(all)) by {
        assert forall|s: PartitionLifecycleStats| plan.to_set().insert(missing).contains(
            s,
        ) implies all.contains(s) by {
            if s != missing {
                let i = plan.index_of(s);
                assert(stats.contains(plan[i]));
            }
        }
    }
    vstd::seq_lib::seq_to_set_is_finite(stats);
    vstd::set_lib::lemma_len_subset(plan.to_set().insert(missing), all);
    stats.lemma_cardinality_of_set();
}

/// A snapshot is determined by the partitions it lists.
proof fn lemma_snapshot_unique(
    partitions: Map<i64, PartitionLifecycleStats>,
    a: Seq<PartitionLifecycleStats>,
    b: Seq<PartitionLifecycleStats>,
)
    requires
        is_snapshot(partitions, a),
        is_snapshot(partitions, b),
    ensures
        a == b,
{
    let n = a.len();
    assert(b.len() == n);
    if a != b {
        assert(!(a =~= b));
        let i = choose|i: int| 0 <= i < n && a[i] != b[i] && (forall|j: int| 0 <= j < i ==> a[j]
            == b[j]);
        assert(exists|i: int| 0 <= i < n && a[i] != b[i] && (forall|j: int| 0 <= j < i ==> a[j]
            == b[j])) by {
            lemma_first_difference(a, b, n as int);
        }
        // each of the two occurs in the other sequence, at or after the first difference
        assert(b.contains(a[i])) by {
            assert(partitions[a[i].partition_id.id] == a[i]);
        }
        assert(a.contains(b[i])) by {
            assert(partitions[b[i].partition_id.id] == b[i]);
        }
        let x = b.index_of(a[i]);
        let y = a.index_of(b[i]);
        if x < i {
            assert(a[x] == b[x]);
            assert(a[x].partition_id.id < a[i].partition_id.id);
        }
        if y < i {
            assert(a[y] == b[y]);
            assert(b[y].partition_id.id < b[i].partition_id.id);
        }
        assert(b[i].partition_id.id < b[x].partition_id.id);
        assert(a[i].partition_id.id < a[y].partition_id.id);
    }
}

proof fn lemma_first_difference<A>(a: Seq<A>, b: Seq<A>, n: int)
    requires
        a.len() == b.len(),
        0 <= n <= a.len(),
        exists|i: int| 0 <= i < n && a[i] != b[i],
    ensures
        exists|i: int| 0 <= i < n && a[i] != b[i] && (forall|j: int| 0 <= j < i ==> a[j] == b[j]),
    decreases n,
{
    if exists|i: int| 0 <= i < n - 1 && a[i] != b[i] {
        lemma_first_difference(a, b, n - 1);
    } else {
        assert(a[n - 1] != b[n - 1]);
    }
}

/// A ranking is determined by what it ranks.
proof fn lemma_ranking_unique(
    rest: Seq<PartitionLifecycleStats>,
    a: Seq<PartitionLifecycleStats>,
    b: Seq<PartitionLifecycleStats>,
)
    requires
        is_ranking(rest, a),
        is_ranking(rest, b),
    ensures
        a == b,
{
    let leq = |x: PartitionLifecycleStats, y: PartitionLifecycleStats|
        {
            ||| ranks_before(x, y)
            ||| x.bytes_written == y.bytes_written && x.partition_id == y.partition_id
                && x.first_write <= y.first_write
        };
    assert(vstd::relations::total_ordering(leq));
    assert(vstd::relations::sorted_by(a, leq)) by {
        assert forall|i: int, j: int| 0 <= i < j < a.len() implies #[trigger] leq(a[i], a[j]) by {
            assert(ranks_before(a[i], a[j]));
        }
    }
    assert(vstd::relations::sorted_by(b, leq)) by {
        assert forall|i: int, j: int| 0 <= i < j < b.len() implies #[trigger] leq(b[i], b[j]) by {
            assert(ranks_before(b[i], b[j]));
        }
    }
    vstd::seq_lib::lemma_sorted_unique(a, b, leq);
}

/// What the manager tracks and the time determine which partitions a run persists, and in which
/// order.
pub proof fn law_persist_run_unique(
    view: LifecycleView,
    now: u128,
    a: Seq<PartitionId>,
    b: Seq<PartitionId>,
)
    requires
        is_persist_run(view, now, a),
        is_persist_run(view, now, b),
    ensures
        a == b,
{
    let (stats_a, plan_a) = choose|
        stats: Seq<PartitionLifecycleStats>,
        plan: Seq<PartitionLifecycleStats>,
    |
        {
            &&& is_snapshot(view.partitions, stats)
            &&& #[trigger] is_persist_plan(view, now, stats, plan)
            &&& a == plan_ids(plan)
        };
    let (stats_b, plan_b) = choose|
        stats: Seq<PartitionLifecycleStats>,
        plan: Seq<PartitionLifecycleStats>,
    |
        {
            &&& is_snapshot(view.partitions, stats)
            &&& #[trigger] is_persist_plan(view, now, stats, plan)
            &&& b == plan_ids(plan)
        };
    lemma_snapshot_unique(view.partitions, stats_a, stats_b);
    let first = due(view, now, stats_a);
    let rest = spared(view, now, stats_a);
    let left = seq_bytes(stats_a) - seq_bytes(first);
    let threshold = view.persist_memory_threshold as int;
    if left > threshold {
        let (ranked_a, count_a) = choose|ranked: Seq<PartitionLifecycleStats>, count: int|
            {
                &&& #[trigger] is_ranking(rest, ranked)
                &&& #[trigger] is_shed_count(ranked, left, threshold, count)
                &&& plan_a == first + ranked.take(count)
            };
        let (ranked_b, count_b) = choose|ranked: Seq<PartitionLifecycleStats>, count: int|
            {
                &&& #[trigger] is_ranking(rest, ranked)
                &&& #[trigger] is_shed_count(ranked, left, threshold, count)
                &&& plan_b == first + ranked.take(count)
            };
        lemma_ranking_unique(rest, ranked_a, ranked_b);
        lemma_due_and_spared_bytes(view, now, stats_a);
        lemma_seq_bytes_permuted(rest, ranked_a);
        assert(count_a == count_b) by {
            if count_a < count_b {
                assert(left - seq_bytes(ranked_a.take(count_a)) >= threshold || count_a == 0);
            } else if count_b < count_a {
                assert(left - seq_bytes(ranked_a.take(count_b)) >= threshold || count_b == 0);
            }
        }
    }
}

/// Once a partition is removed, nothing is left of a write that was logged for it.
pub proof fn law_remove_undoes_log(
    view: LifecycleView,
    partition_id: PartitionId,
    bytes_written: usize,
    now: u128,
)
    ensures
        logged(view, partition_id, bytes_written, now).partitions.remove(partition_id.id)
            == view.partitions.remove(partition_id.id),
{
    assert(logged(view, partition_id, bytes_written, now).partitions.remove(partition_id.id)
        =~= view.partitions.remove(partition_id.id));
}

/// Writes to a partition add up, and its first write is the one that counts for its age.
pub proof fn law_writes_add_up(
    view: LifecycleView,
    partition_id: PartitionId,
    first: usize,
    first_at: u128,
    second: usize,
    second_at: u128,
)
    requires
        view.partitions.contains_key(partition_id.id)
            ==> view.partitions[partition_id.id].bytes_written + first + second <= usize::MAX,
        first + second <= usize::MAX,
    ensures
        logged(logged(view, partition_id, first, first_at), partition_id, second, second_at)
            == logged(view, partition_id, (first + second) as usize, first_at),
{
    assert(logged(
        logged(view, partition_id, first, first_at),
        partition_id,
        second,
        second_at,
    ).partitions =~= logged(
        view,
        partition_id,
        (first + second) as usize,
        first_at,
    ).partitions);
}

/// Something that changes what a lifecycle manager tracks.
pub enum LifecycleEvent {
    /// A write was logged.
    Logged { partition_id: PartitionId, bytes_written: usize, now: u128 },
    /// A partition was removed.
    Removed { partition_id: PartitionId },
    /// Partitions were persisted.
    Persisted { ids: Seq<PartitionId> },
}

impl LifecycleEvent {
    /// It is a write to the partition.
    pub open spec fn writes(self, id: PartitionId) -> bool {
        self matches LifecycleEvent::Logged { partition_id, .. } && partition_id == id
    }

    /// It takes the partition away.
    pub open spec fn takes_away(self, id: PartitionId) -> bool {
        match self {
            LifecycleEvent::Logged { .. } => false,
            LifecycleEvent::Removed { partition_id } => partition_id == id,
            LifecycleEvent::Persisted { ids } => ids.contains(id),
        }
    }
}

/// What the events, one after another, make of the manager.
pub open spec fn after_events(view: LifecycleView, events: Seq<LifecycleEvent>) -> LifecycleView
    decreases events.len(),
{
    if events.len() == 0 {
        view
    } else {
        let before = after_events(view, events.drop_last());
        match events.last() {
            LifecycleEvent::Logged { partition_id, bytes_written, now } => {
                logged(before, partition_id, bytes_written, now)
            },
            LifecycleEvent::Removed { partition_id } => LifecycleView {
                partitions: before.partitions.remove(partition_id.id),
                ..before
            },
            LifecycleEvent::Persisted { ids } => without(before, ids),
        }
    }
}

/// Of the events, this is the first write to the partition since it was last taken away, if it
/// ever was.
pub open spec fn is_first_write(events: Seq<LifecycleEvent>, id: PartitionId, i: int) -> bool {
    &&& 0 <= i < events.len()
    &&& events[i].writes(id)
    &&& forall|k: int| i < k < events.len() ==> !(#[trigger] events[k]).takes_away(id)
    &&& forall|k: int|
        0 <= k < i && (#[trigger] events[k]).writes(id) ==> is_taken_away_between(events, id, k, i)
}

/// Between two of the events there is one that takes the partition away.
pub open spec fn is_taken_away_between(
    events: Seq<LifecycleEvent>,
    id: PartitionId,
    from: int,
    to: int,
) -> bool {
    exists|j: int| from < j < to && (#[trigger] events[j]).takes_away(id)
}

/// Whatever has happened to a manager that tracked nothing at first, a partition is tracked if
/// and only if it was written to and not taken away since, and its age counts from the first such
/// write. So the age starts anew with the first write after each persist or removal, and later
/// writes leave it as it is.
pub proof fn law_age_counts_from_first_write(
    view: LifecycleView,
    events: Seq<LifecycleEvent>,
    id: PartitionId,
)
    requires
        view.partitions == Map::<i64, PartitionLifecycleStats>::empty(),
    ensures
        after_events(view, events).partitions.contains_key(id.id) <==> exists|i: int| #[trigger]
            is_first_write(events, id, i),
        forall|i: int| #[trigger]
            is_first_write(events, id, i) ==> events[i]->now == after_events(
                view,
                events,
            ).partitions[id.id].first_write,
    decreases events.len(),
{
    let after = after_events(view, events).partitions;
    if events.len() > 0 {
        let rest = events.drop_last();
        let last = events.len() - 1;
        let before = after_events(view, rest).partitions;
        law_age_counts_from_first_write(view, rest, id);
        assert(events[last] == events.last());
        assert(id == PartitionId { id: id.id });
        // an earlier write is the first one just as it was
        assert forall|i: int| i < last && !events[last].takes_away(id) implies (
        #[trigger] is_first_write(events, id, i) <==> is_first_write(rest, id, i)) by {
            if 0 <= i {
                lemma_first_write_prefix(events, id, i);
            }
        }
        if events[last].takes_away(id) {
            assert forall|i: int| !#[trigger] is_first_write(events, id, i) by {
                if is_first_write(events, id, i) {
                    assert(i == last || !events[last].takes_away(id));
                }
            }
        } else if events[last].writes(id) {
            if before.contains_key(id.id) {
                let first = choose|i: int| is_first_write(rest, id, i);
                assert(is_first_write(events, id, first));
                assert(!is_first_write(events, id, last)) by {
                    if is_first_write(events, id, last) {
                        assert(events[first] == rest[first]);
                        let j = choose|j: int|
                            first < j < last && (#[trigger] events[j]).takes_away(id);
                        assert(rest[j] == events[j]);
                    }
                }
            } else {
                assert(is_first_write(events, id, last)) by {
                    assert forall|k: int|
                        0 <= k < last && (#[trigger] events[k]).writes(
                            id,
                        ) implies is_taken_away_between(events, id, k, last) by {
                        lemma_taken_away(rest, id, k);
                        let j = choose|j: int|
                            k < j < rest.len() && (#[trigger] rest[j]).takes_away(id);
                        assert(events[j] == rest[j]);
                    }
                }
                assert forall|i: int| #[trigger] is_first_write(events, id, i) implies i
                    == last by {
                    if i < last {
                        assert(is_first_write(rest, id, i));
                    }
                }
            }
        } else {
            assert(!is_first_write(events, id, last));
            assert(before.contains_key(id.id) <==> after.contains_key(id.id));
            if before.contains_key(id.id) {
                let first = choose|i: int| is_first_write(rest, id, i);
                assert(is_first_write(events, id, first));
                assert(after[id.id] == before[id.id]);
            }
        }
    }
}

/// What is the first write among fewer events is so among all, unless the last of them takes the
/// partition away.
proof fn lemma_first_write_prefix(events: Seq<LifecycleEvent>, id: PartitionId, i: int)
    requires
        0 <= i < events.len() - 1,
        !events.last().takes_away(id),
    ensures
        is_first_write(events, id, i) <==> is_first_write(events.drop_last(), id, i),
{
    let rest = events.drop_last();
    assert(rest[i] == events[i]);
    assert forall|k: int| 0 <= k < i implies (#[trigger] is_taken_away_between(events, id, k, i)
        <==> is_taken_away_between(rest, id, k, i)) by {
        if is_taken_away_between(events, id, k, i) {
            let j = choose|j: int| k < j < i && (#[trigger] events[j]).takes_away(id);
            assert(rest[j] == events[j]);
        }
        if is_taken_away_between(rest, id, k, i) {
            let j = choose|j: int| k < j < i && (#[trigger] rest[j]).takes_away(id);
            assert(rest[j] == events[j]);
        }
    }
    if is_first_write(events, id, i) {
        assert forall|k: int| i < k < rest.len() implies !(#[trigger] rest[k]).takes_away(id) by {
            assert(rest[k] == events[k]);
        }
        assert forall|k: int|
            0 <= k < i && (#[trigger] rest[k]).writes(id) implies is_taken_away_between(
            rest,
            id,
            k,
            i,
        ) by {
            assert(rest[k] == events[k]);
            assert(is_taken_away_between(events, id, k, i));
        }
    }
    if is_first_write(rest, id, i) {
        assert forall|k: int| i < k < events.len() implies !(#[trigger] events[k]).takes_away(
            id,
        ) by {
            if k < rest.len() {
                assert(rest[k] == events[k]);
            }
        }
        assert forall|k: int|
            0 <= k < i && (#[trigger] events[k]).writes(id) implies is_taken_away_between(
            events,
            id,
            k,
            i,
        ) by {
            assert(rest[k] == events[k]);
            assert(is_taken_away_between(rest, id, k, i));
        }
    }
}

/// If no write is the first one since the partition was last taken away, each was taken away.
proof fn lemma_taken_away(events: Seq<LifecycleEvent>, id: PartitionId, k: int)
    requires
        0 <= k < events.len(),
        events[k].writes(id),
        forall|i: int| !#[trigger] is_first_write(events, id, i),
    ensures
        is_taken_away_between(events, id, k, events.len() as int),
    decreases k,
{
    if !is_taken_away_between(events, id, k, events.len() as int) {
        assert(!is_first_write(events, id, k));
        assert forall|j: int| k < j < events.len() implies !(#[trigger] events[j]).takes_away(
            id,
        ) by {
            if events[j].takes_away(id) {
                assert(is_taken_away_between(events, id, k, events.len() as int));
            }
        }
        let m = choose|m: int|
            0 <= m < k && (#[trigger] events[m]).writes(id) && !is_taken_away_between(
                events,
                id,
                m,
                k,
            );
        lemma_taken_away(events, id, m);
        let j = choose|j: int| m < j < events.len() && (#[trigger] events[j]).takes_away(id);
        assert(is_taken_away_between(events, id, m, k));
    }
}

/// Once a partition was persisted, its age counts from the next write on.
pub proof fn law_persisting_resets_first_write(
    view: LifecycleView,
    ids: Seq<PartitionId>,
    partition_id: PartitionId,
    bytes_written: usize,
    now: u128,
)
    requires
        ids.contains(partition_id),
    ensures
        logged(without(view, ids), partition_id, bytes_written, now).partitions[partition_id.id]
            == (PartitionLifecycleStats { partition_id, first_write: now, bytes_written }),
{
    assert(partition_id == PartitionId { id: partition_id.id });
    assert(!without(view, ids).partitions.contains_key(partition_id.id));
}

/// What is persisted only to free memory goes before anything that is kept: it is larger, or as
/// large and of a smaller identifier.
pub proof fn law_persist_run_takes_largest_first(
    view: LifecycleView,
    now: u128,
    ids: Seq<PartitionId>,
    taken: PartitionId,
    kept: PartitionId,
)
    requires
        view.valid(),
        is_persist_run(view, now, ids),
        ids.contains(taken),
        view.partitions.contains_key(kept.id),
        !ids.contains(kept),
    ensures
        view.partitions.contains_key(taken.id),
        !is_due(view, now, view.partitions[taken.id]) ==> ranks_before(
            view.partitions[taken.id],
            view.partitions[kept.id],
        ),
{
    let (stats, plan) = choose|
        stats: Seq<PartitionLifecycleStats>,
        plan: Seq<PartitionLifecycleStats>,
    |
        {
            &&& is_snapshot(view.partitions, stats)
            &&& #[trigger] is_persist_plan(view, now, stats, plan)
            &&& ids == plan_ids(plan)
        };
    lemma_plan_members(view, now, stats, plan);
    let at = plan_ids(plan).index_of(taken);
    let s = plan[at];
    let k = stats.index_of(s);
    assert(stats[k] == s);
    let t = view.partitions[kept.id];
    assert(stats.contains(t));
    let first = due(view, now, stats);
    let rest = spared(view, now, stats);
    let left = seq_bytes(stats) - seq_bytes(first);
    lemma_filter_ascending(stats, |s: PartitionLifecycleStats| is_due(view, now, s));
    lemma_filter_ascending(stats, |s: PartitionLifecycleStats| !is_due(view, now, s));
    assert(!plan.contains(t)) by {
        if plan.contains(t) {
            let i = plan.index_of(t);
            assert(plan_ids(plan)[i] == kept);
        }
    }
    assert(!is_due(view, now, t));
    assert(rest.contains(t));
    if !is_due(view, now, s) {
        if at < first.len() {
            assert(plan[at] == first[at]);
        }
        let (ranked, count) = choose|ranked: Seq<PartitionLifecycleStats>, count: int|
            {
                &&& #[trigger] is_ranking(rest, ranked)
                &&& #[trigger] is_shed_count(
                    ranked,
                    left,
                    view.persist_memory_threshold as int,
                    count,
                )
                &&& plan == first + ranked.take(count)
            };
        ranked.to_multiset_ensures();
        rest.to_multiset_ensures();
        assert(rest.to_multiset().count(t) > 0);
        assert(ranked.contains(t));
        let j = ranked.index_of(t);
        let i = at - first.len();
        assert(ranked[i] == s);
        if j < count {
            assert(plan[first.len() + j] == t);
        }
        assert(ranks_before(ranked[i], ranked[j]));
    }
}

} // verus!
