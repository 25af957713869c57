//! Manages the persistence and eviction lifecycle of buffered partitions across all sequencers.
//!
//! The manager only estimates: byte counts are the sizes of the mutable batches that were logged,
//! and persistence is triggered often enough to keep memory use around the configured amounts.
//! Time is a plain number, the nanoseconds of a monotonic clock, read by the caller.

use crate::persist_plan::select_partitions;
use std::collections::BTreeMap;
use vstd::prelude::*;

verus! {

use crate::persist_plan::{
    is_persist_plan,
    is_persist_run,
    law_persist_run_bounds_memory,
    law_plan_in_numbers,
    law_run_in_numbers,
    lemma_without_push,
    plan_ids,
    without,
};

/// Partitions larger than this many bytes are persisted (300 MB).
pub const DEFAULT_PARTITION_SIZE_THRESHOLD: usize = 314_572_800;

/// Partitions older than this many nanoseconds are persisted (30 minutes).
pub const DEFAULT_AGE_THRESHOLD: u128 = 1_800_000_000_000;

/// Nanoseconds between two runs of the lifecycle manager (one second).
pub const CHECK_INTERVAL: u128 = 1_000_000_000;

/// The identifier of a partition in the catalog.
#[derive(Debug, Clone, Copy, PartialEq, Eq, PartialOrd, Ord, Hash, Structural)]
pub struct PartitionId {
    pub id: i64,
}

impl PartitionId {
    /// The partition with the given catalog key.
    pub fn new(id: i64) -> (result: Self)
        ensures
            result.id == id,
    {
        PartitionId { id }
    }

    /// The catalog key of the partition.
    pub fn get(&self) -> (result: i64)
        ensures
            result == self.id,
    {
        self.id
    }
}

/// The stats for a partition.
#[derive(Debug, Clone, Copy, PartialEq, Eq, Structural)]
pub struct PartitionLifecycleStats {
    /// The partition identifier.
    pub partition_id: PartitionId,
    /// When the partition received its first write. This is reset anytime the partition is
    /// persisted.
    pub first_write: u128,
    /// The number of bytes in the partition as estimated by the mutable batch sizes.
    pub bytes_written: usize,
}

/// A snapshot of the stats for the lifecycle manager.
#[derive(Debug)]
pub struct LifecycleStats {
    /// Total number of bytes the manager is aware of across all sequencers and partitions.
    pub total_bytes: usize,
    /// The stats for every partition the manager is tracking, in ascending order of partition.
    pub partition_stats: Vec<PartitionLifecycleStats>,
}

/// The bytes that a sequence of partitions holds together.
pub open spec fn seq_bytes(stats: Seq<PartitionLifecycleStats>) -> nat
    decreases stats.len(),
{
    if stats.len() == 0 {
        0
    } else {
        seq_bytes(stats.drop_last()) + stats.last().bytes_written as nat
    }
}

/// The bytes that the partitions of a map hold together.
pub open spec fn map_bytes(partitions: Map<i64, PartitionLifecycleStats>) -> nat
    decreases partitions.dom().len(),
    when partitions.dom().finite()
{
    if partitions.dom().len() == 0 {
        0
    } else {
        let k = partitions.dom().choose();
        map_bytes(partitions.remove(k)) + partitions[k].bytes_written as nat
    }
}

/// Each partition is filed under its own identifier.
pub open spec fn filed_by_id(partitions: Map<i64, PartitionLifecycleStats>) -> bool {
    forall|k: i64| #[trigger]
        partitions.contains_key(k) ==> partitions[k].partition_id.id == k
}

/// Partition identifiers strictly ascend.
pub open spec fn ascending(stats: Seq<PartitionLifecycleStats>) -> bool {
    forall|i: int, j: int|
        0 <= i < j < stats.len() ==> #[trigger] stats[i].partition_id.id
            < #[trigger] stats[j].partition_id.id
}

/// `stats` lists the partitions of the map, each exactly once, in ascending order.
pub open spec fn is_snapshot(
    partitions: Map<i64, PartitionLifecycleStats>,
    stats: Seq<PartitionLifecycleStats>,
) -> bool {
    &&& ascending(stats)
    &&& stats.len() == partitions.dom().len()
    &&& forall|i: int|
        0 <= i < stats.len() ==> {
            &&& partitions.contains_key((#[trigger] stats[i]).partition_id.id)
            &&& partitions[stats[i].partition_id.id] == stats[i]
        }
    &&& forall|k: i64| #[trigger]
        partitions.contains_key(k) ==> stats.contains(partitions[k])
}

/// What a lifecycle manager tracks, beside its settings.
pub struct LifecycleView {
    pub pause_ingest_size: nat,
    pub persist_memory_threshold: nat,
    pub partition_size_threshold: nat,
    pub partition_age_threshold: nat,
    pub partitions: Map<i64, PartitionLifecycleStats>,
}

impl LifecycleView {
    /// Finitely many partitions, each filed under its own identifier, and an amount to pause at
    /// that is over the memory threshold.
    pub open spec fn valid(self) -> bool {
        &&& self.partitions.dom().finite()
        &&& filed_by_id(self.partitions)
        &&& self.pause_ingest_size > self.persist_memory_threshold
    }

    /// The bytes of all tracked partitions.
    pub open spec fn total_bytes(self) -> nat {
        map_bytes(self.partitions)
    }
}

struct LifecycleState {
    total_bytes: usize,
    partition_stats: BTreeMap<i64, PartitionLifecycleStats>,
}

impl LifecycleState {
    spec fn wf(self) -> bool {
        &&& self.partition_stats@.dom().finite()
        &&& filed_by_id(self.partition_stats@)
        &&& self.total_bytes == map_bytes(self.partition_stats@)
    }

    fn remove(&mut self, partition_id: &PartitionId)
        requires
            old(self).wf(),
        ensures
            final(self).wf(),
            final(self).partition_stats@ == old(self).partition_stats@.remove(partition_id.id),
    {
        let ghost before = self.partition_stats@;
        if let Some(stats) = self.partition_stats.remove(&partition_id.id) {
            proof {
                lemma_map_bytes_remove(before, partition_id.id);
            }
            self.total_bytes = self.total_bytes - stats.bytes_written;
        } else {
            assert(before.remove(partition_id.id) =~= before);
        }
    }
}

/// Removing a partition takes its bytes, and no others, from the total.
pub proof fn lemma_map_bytes_remove(partitions: Map<i64, PartitionLifecycleStats>, k: i64)
    requires
        partitions.dom().finite(),
        partitions.contains_key(k),
    ensures
        map_bytes(partitions) == map_bytes(partitions.remove(k)) + partitions[k].bytes_written,
    decreases partitions.dom().len(),
{
    let c = partitions.dom().choose();
    assert(partitions.dom().contains(k));
    assert(partitions.dom().contains(c));
    if c != k {
        lemma_map_bytes_remove(partitions.remove(c), k);
        lemma_map_bytes_remove(partitions.remove(k), c);
        assert(partitions.remove(c).remove(k) =~= partitions.remove(k).remove(c));
    }
}

/// Filing a partition replaces its former bytes, if it had any, by its new ones.
proof fn lemma_map_bytes_insert(
    partitions: Map<i64, PartitionLifecycleStats>,
    k: i64,
    stats: PartitionLifecycleStats,
)
    requires
        partitions.dom().finite(),
    ensures
        map_bytes(partitions.insert(k, stats)) == map_bytes(partitions.remove(k))
            + stats.bytes_written,
{
    let inserted = partitions.insert(k, stats);
    lemma_map_bytes_remove(inserted, k);
    assert(inserted.remove(k) =~= partitions.remove(k));
}

/// The lifecycle manager keeps track of the size and age of partitions across all sequencers.
/// It triggers persistence based on keeping total memory usage around a set amount while
/// ensuring that partitions don't get too old or large before being persisted.
pub struct LifecycleManager {
    pause_ingest_size: usize,
    persist_memory_threshold: usize,
    partition_size_threshold: usize,
    partition_age_threshold: u128,
    state: LifecycleState,
}

impl View for LifecycleManager {
    type V = LifecycleView;

    closed spec fn view(&self) -> LifecycleView {
        LifecycleView {
            pause_ingest_size: self.pause_ingest_size as nat,
            persist_memory_threshold: self.persist_memory_threshold as nat,
            partition_size_threshold: self.partition_size_threshold as nat,
            partition_age_threshold: self.partition_age_threshold as nat,
            partitions: self.state.partition_stats@,
        }
    }
}

impl LifecycleManager {
    /// The running total is the sum over the partitions, and ingest is paused only at a size
    /// that persistence brings memory below.
    pub closed spec fn wf(&self) -> bool {
        &&& self.state.wf()
        &&& self.pause_ingest_size > self.persist_memory_threshold
    }

    /// What a well-formed manager tracks is valid.
    pub proof fn lemma_view_valid(&self)
        requires
            self.wf(),
        ensures
            self@.valid(),
    {
    }

    /// Initialize a new lifecycle manager that will persist when `maybe_persist` is called
    /// if anything is over the size or age threshold.
    pub fn new(
        pause_ingest_size: usize,
        persist_memory_threshold: usize,
        partition_size_threshold: usize,
        partition_age_threshold: u128,
    ) -> (manager: Self)
        requires
            pause_ingest_size > persist_memory_threshold,
        ensures
            manager.wf(),
            manager@ == (LifecycleView {
                pause_ingest_size: pause_ingest_size as nat,
                persist_memory_threshold: persist_memory_threshold as nat,
                partition_size_threshold: partition_size_threshold as nat,
                partition_age_threshold: partition_age_threshold as nat,
                partitions: Map::empty(),
            }),
    {
        LifecycleManager {
            pause_ingest_size,
            persist_memory_threshold,
            partition_size_threshold,
            partition_age_threshold,
            state: LifecycleState { total_bytes: 0, partition_stats: BTreeMap::new() },
        }
    }

    /// Logs bytes written into a partition at `now` so that it can be tracked for the manager to
    /// trigger persistence. Returns true if the ingester should pause consuming from the
    /// write buffer so that persistence can catch up and free up memory.
    pub fn log_write(&mut self, partition_id: PartitionId, bytes_written: usize, now: u128) -> (pause:
        bool)
        requires
            old(self).wf(),
            old(self)@.total_bytes() + bytes_written <= usize::MAX,
        ensures
            final(self).wf(),
            final(self)@ == logged(old(self)@, partition_id, bytes_written, now),
            final(self)@.total_bytes() == old(self)@.total_bytes() + bytes_written,
            pause == (final(self)@.total_bytes() > old(self)@.pause_ingest_size),
            pause == (old(self)@.total_bytes() + bytes_written > old(self)@.pause_ingest_size),
            forall|k: i64| #[trigger]
                final(self)@.partitions.contains_key(k) <==> old(self)@.partitions.contains_key(k)
                    || k == partition_id.id,
            forall|k: i64| #[trigger]
                old(self)@.partitions.contains_key(k) && k != partition_id.id
                    ==> final(self)@.partitions[k] == old(self)@.partitions[k],
            final(self)@.partitions[partition_id.id].partition_id.id == partition_id.id,
            final(self)@.partitions[partition_id.id].bytes_written == bytes_written + if old(
                self,
            )@.partitions.contains_key(partition_id.id) {
                old(self)@.partitions[partition_id.id].bytes_written as int
            } else {
                0
            },
            final(self)@.partitions[partition_id.id].first_write == if old(
                self,
            )@.partitions.contains_key(partition_id.id) {
                old(self)@.partitions[partition_id.id].first_write
            } else {
                now
            },
            final(self)@.pause_ingest_size == old(self)@.pause_ingest_size,
            final(self)@.persist_memory_threshold == old(self)@.persist_memory_threshold,
            final(self)@.partition_size_threshold == old(self)@.partition_size_threshold,
            final(self)@.partition_age_threshold == old(self)@.partition_age_threshold,
    {
        let ghost before = self.state.partition_stats@;
        let stats = match self.state.partition_stats.get(&partition_id.id) {
            Some(stats) => *stats,
            None => PartitionLifecycleStats { partition_id, first_write: now, bytes_written: 0 },
        };
        proof {
            if before.contains_key(partition_id.id) {
                lemma_map_bytes_remove(before, partition_id.id);
            } else {
                assert(before.remove(partition_id.id) =~= before);
            }
        }
        let stats = PartitionLifecycleStats {
            bytes_written: stats.bytes_written + bytes_written,
            ..stats
        };
        self.state.partition_stats.insert(partition_id.id, stats);
        proof {
            lemma_map_bytes_insert(before, partition_id.id, stats);
        }
        self.state.total_bytes = self.state.total_bytes + bytes_written;

        self.state.total_bytes > self.pause_ingest_size
    }

    /// Returns true if the bytes tracked by the manager are less than the pause amount.
    /// As persistence runs, the tracked bytes go down.
    pub fn can_resume_ingest(&self) -> (resume: bool)
        requires
            self.wf(),
        ensures
            resume == (self@.total_bytes() < self@.pause_ingest_size),
    {
        self.state.total_bytes < self.pause_ingest_size
    }

    /// Returns a point in time snapshot of the lifecycle state.
    pub fn stats(&self) -> (stats: LifecycleStats)
        requires
            self.wf(),
        ensures
            stats.total_bytes == self@.total_bytes(),
            is_snapshot(self@.partitions, stats.partition_stats@),
            stats.partition_stats@.len() == self@.partitions.dom().len(),
            forall|i: int|
                0 <= i < stats.partition_stats@.len() ==> {
                    &&& self@.partitions.contains_key(
                        (#[trigger] stats.partition_stats@[i]).partition_id.id,
                    )
                    &&& stats.partition_stats@[i]
                        == self@.partitions[stats.partition_stats@[i].partition_id.id]
                },
            forall|k: i64| #[trigger]
                self@.partitions.contains_key(k) ==> stats.partition_stats@.contains(
                    self@.partitions[k],
                ),
            forall|i: int, j: int|
                0 <= i < j < stats.partition_stats@.len() ==> (
                #[trigger] stats.partition_stats@[i]).partition_id.id < (
                #[trigger] stats.partition_stats@[j]).partition_id.id,
    {
        let mut partition_stats: Vec<PartitionLifecycleStats> = Vec::new();
        let entries = self.state.partition_stats.iter();
        let ghost listed = vstd::std_specs::iter::IteratorSpec::remaining(&entries);
        let ghost keys = listed.map_values(|entry: (&i64, &PartitionLifecycleStats)| *entry.0);
        for entry in it: entries
            invariant
                it.seq() == listed,
                partition_stats@.len() == it.index(),
                forall|i: int| 0 <= i < it.index() ==> partition_stats@[i] == *listed[i].1,
        {
            partition_stats.push(*entry.1);
        }
        proof {
            let partitions = self.state.partition_stats@;
            assert forall|i: int| 0 <= i < partition_stats@.len() implies {
                &&& partitions.contains_key((#[trigger] partition_stats@[i]).partition_id.id)
                &&& partitions[partition_stats@[i].partition_id.id] == partition_stats@[i]
                &&& partition_stats@[i].partition_id.id == keys[i]
            } by {
                assert(partitions.contains_key(*listed[i].0));
            }
            assert(vstd::std_specs::btree::increasing_seq(keys));
            assert forall|i: int, j: int| 0 <= i < j < partition_stats@.len() implies
                #[trigger] partition_stats@[i].partition_id.id
                    < #[trigger] partition_stats@[j].partition_id.id by {
                assert(vstd::std_specs::cmp::OrdSpec::cmp_spec(&keys[i], &keys[j]) is Less);
            }
            assert forall|k: i64| #[trigger] partitions.contains_key(k) implies
                partition_stats@.contains(partitions[k]) by {
                let i = listed.index_of((&k, &partitions[k]));
                assert(listed[i] == (&k, &partitions[k]));
                assert(partition_stats@[i] == partitions[k]);
            }
        }
        LifecycleStats { total_bytes: self.state.total_bytes, partition_stats }
    }

    /// The partitions of a snapshot that `maybe_persist` persists at `now`, in the order in which
    /// it triggers their persistence.
    pub fn select_to_persist(&self, stats: LifecycleStats, now: u128) -> (plan: Vec<
        PartitionLifecycleStats,
    >)
        requires
            self.wf(),
            ascending(stats.partition_stats@),
            stats.total_bytes == seq_bytes(stats.partition_stats@),
        ensures
            is_persist_plan(self@, now, stats.partition_stats@, plan@),
            forall|i: int|
                0 <= i < plan@.len() ==> stats.partition_stats@.contains(#[trigger] plan@[i]),
            forall|k: int|
                0 <= k < stats.partition_stats@.len() && !plan@.contains(
                    #[trigger] stats.partition_stats@[k],
                ) ==> {
                    &&& stats.partition_stats@[k].first_write + self@.partition_age_threshold
                        >= now
                    &&& stats.partition_stats@[k].bytes_written <= self@.partition_size_threshold
                },
    {
        let ghost listed = stats.partition_stats@;
        let plan = select_partitions(
            stats,
            now,
            self.persist_memory_threshold,
            self.partition_size_threshold,
            self.partition_age_threshold,
            Ghost(self@),
        );
        proof {
            law_plan_in_numbers(self@, now, listed, plan@);
        }
        plan
    }

    /// Picks any partitions that are over their size or age thresholds at `now` and as many more
    /// as necessary (largest first) to get below the memory threshold. The partitions are no
    /// longer tracked; the caller persists them, in the order returned.
    pub fn maybe_persist(&mut self, now: u128) -> (ids: Vec<PartitionId>)
        requires
            old(self).wf(),
        ensures
            final(self).wf(),
            is_persist_run(old(self)@, now, ids@),
            final(self)@ == without(old(self)@, ids@),
            final(self)@.total_bytes() <= final(self)@.persist_memory_threshold,
            final(self)@.total_bytes() < final(self)@.pause_ingest_size,
            forall|k: i64| #[trigger]
                final(self)@.partitions.contains_key(k) <==> old(self)@.partitions.contains_key(k)
                    && !ids@.contains(PartitionId { id: k }),
            forall|k: i64| #[trigger]
                final(self)@.partitions.contains_key(k) ==> {
                    &&& final(self)@.partitions[k] == old(self)@.partitions[k]
                    &&& final(self)@.partitions[k].first_write + old(
                        self,
                    )@.partition_age_threshold >= now
                    &&& final(self)@.partitions[k].bytes_written <= old(
                        self,
                    )@.partition_size_threshold
                },
            forall|i: int|
                0 <= i < ids@.len() ==> old(self)@.partitions.contains_key((#[trigger] ids@[i]).id),
            ids@.no_duplicates(),
            old(self)@.total_bytes() <= old(self)@.persist_memory_threshold ==> forall|i: int|
                0 <= i < ids@.len() ==> {
                    ||| old(self)@.partitions[(#[trigger] ids@[i]).id].first_write + old(
                        self,
                    )@.partition_age_threshold < now
                    ||| old(self)@.partitions[ids@[i].id].bytes_written > old(
                        self,
                    )@.partition_size_threshold
                },
            final(self)@.pause_ingest_size == old(self)@.pause_ingest_size,
            final(self)@.persist_memory_threshold == old(self)@.persist_memory_threshold,
            final(self)@.partition_size_threshold == old(self)@.partition_size_threshold,
            final(self)@.partition_age_threshold == old(self)@.partition_age_threshold,
    {
        let stats = self.stats();
        let ghost view = self@;
        let ghost listed = stats.partition_stats@;
        proof {
            lemma_snapshot_bytes(view.partitions, listed);
        }
        let plan = self.select_to_persist(stats, now);
        let mut ids: Vec<PartitionId> = Vec::new();
        assert(self@.partitions =~= without(view, ids@).partitions);
        for i in 0..plan.len()
            invariant
                self.wf(),
                self@ == without(view, ids@),
                ids@ == plan_ids(plan@.take(i as int)),
        {
            let id = plan[i].partition_id;
            let ghost ids_before = ids@;
            self.remove(id);
            ids.push(id);
            proof {
                assert(plan@.take(i + 1) =~= plan@.take(i as int).push(plan@[i as int]));
                assert(ids@ =~= plan_ids(plan@.take(i + 1)));
                lemma_without_push(view, ids_before, id);
            }
        }
        proof {
            assert(plan@.take(plan@.len() as int) =~= plan@);
            assert(is_persist_run(view, now, ids@));
            law_persist_run_bounds_memory(view, now, ids@);
            law_run_in_numbers(view, now, ids@, self@);
        }
        ids
    }

    /// Removes the partition from the state.
    pub fn remove(&mut self, partition_id: PartitionId)
        requires
            old(self).wf(),
        ensures
            final(self).wf(),
            final(self)@ == (LifecycleView {
                partitions: old(self)@.partitions.remove(partition_id.id),
                ..old(self)@
            }),
    {
        self.state.remove(&partition_id);
    }
}

/// A snapshot holds the bytes of the partitions it lists.
pub proof fn lemma_snapshot_bytes(
    partitions: Map<i64, PartitionLifecycleStats>,
    stats: Seq<PartitionLifecycleStats>,
)
    requires
        partitions.dom().finite(),
        filed_by_id(partitions),
        is_snapshot(partitions, stats),
    ensures
        seq_bytes(stats) == map_bytes(partitions),
    decreases stats.len(),
{
    if stats.len() > 0 {
        let last = stats.last();
        let fewer = partitions.remove(last.partition_id.id);
        let rest = stats.drop_last();
        lemma_map_bytes_remove(partitions, last.partition_id.id);
        assert forall|i: int| 0 <= i < rest.len() implies {
            &&& fewer.contains_key((#[trigger] rest[i]).partition_id.id)
            &&& fewer[rest[i].partition_id.id] == rest[i]
        } by {
            assert(stats[i] == rest[i]);
            assert(stats[i].partition_id.id < stats[stats.len() - 1].partition_id.id);
        }
        assert forall|k: i64| #[trigger] fewer.contains_key(k) implies rest.contains(fewer[k]) by {
            assert(partitions.contains_key(k));
            let i = stats.index_of(partitions[k]);
            assert(stats[i] == partitions[k]);
            assert(rest[i] == fewer[k]);
        }
        lemma_snapshot_bytes(fewer, rest);
    }
}

/// What a write of `bytes_written` bytes at `now` makes of the manager: the bytes are added to
/// the partition, which is first seen at `now` if it was not tracked.
pub open spec fn logged(
    view: LifecycleView,
    partition_id: PartitionId,
    bytes_written: usize,
    now: u128,
) -> LifecycleView {
    let former = if view.partitions.contains_key(partition_id.id) {
        view.partitions[partition_id.id]
    } else {
        PartitionLifecycleStats { partition_id, first_write: now, bytes_written: 0 }
    };
    let stats = PartitionLifecycleStats {
        bytes_written: (former.bytes_written + bytes_written) as usize,
        ..former
    };
    LifecycleView { partitions: view.partitions.insert(partition_id.id, stats), ..view }
}

} // verus!
