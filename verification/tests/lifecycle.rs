use iox_core::lifecycle::{
    DEFAULT_AGE_THRESHOLD, DEFAULT_PARTITION_SIZE_THRESHOLD, LifecycleManager, PartitionId,
};
use std::collections::BTreeSet;

const MILLIS: u128 = 1_000_000;

/// A clock that only goes forward when told to, and by one nanosecond with each reading.
struct Clock {
    nanos: u128,
}

impl Clock {
    fn new() -> Self {
        Clock { nanos: 0 }
    }

    fn now(&mut self) -> u128 {
        self.nanos += 1;
        self.nanos
    }

    fn sleep_millis(&mut self, millis: u128) {
        self.nanos += millis * MILLIS;
    }
}

#[derive(Default)]
struct TestPersister {
    persist_called: BTreeSet<i64>,
}

impl TestPersister {
    fn persist(&mut self, ids: Vec<PartitionId>) {
        for id in ids {
            self.persist_called.insert(id.get());
        }
    }

    fn persist_called_for(&self, partition_id: PartitionId) -> bool {
        self.persist_called.contains(&partition_id.get())
    }
}

#[test]
fn logs_write() {
    let mut clock = Clock::new();
    let mut m = LifecycleManager::new(20, 10, 5, 0);
    let start = clock.now();

    assert!(!m.log_write(PartitionId::new(1), 1, clock.now()));
    assert!(!m.log_write(PartitionId::new(1), 1, clock.now()));

    let mid = clock.now();
    assert!(!m.log_write(PartitionId::new(2), 3, clock.now()));

    let stats = m.stats();
    assert_eq!(stats.total_bytes, 5);

    let p1 = stats.partition_stats.get(0).unwrap();
    assert_eq!(p1.bytes_written, 2);
    assert_eq!(p1.partition_id, PartitionId::new(1));
    assert!(p1.first_write > start);
    assert!(p1.first_write < clock.now());

    let p2 = stats.partition_stats.get(1).unwrap();
    assert_eq!(p2.bytes_written, 3);
    assert_eq!(p2.partition_id, PartitionId::new(2));
    assert!(p2.first_write > mid);
    assert!(p2.first_write < clock.now());
}

#[test]
fn pausing_and_resuming_ingest() {
    let mut clock = Clock::new();
    let mut m = LifecycleManager::new(20, 10, 5, 0);

    assert!(!m.log_write(PartitionId::new(1), 15, clock.now()));

    // now it should indicate a pause
    assert!(m.log_write(PartitionId::new(1), 10, clock.now()));
    assert!(!m.can_resume_ingest());

    m.remove(PartitionId::new(1));
    assert!(m.can_resume_ingest());
    assert!(!m.log_write(PartitionId::new(1), 3, clock.now()));
}

#[test]
fn persists_based_on_age() {
    let mut clock = Clock::new();
    let mut m = LifecycleManager::new(30, 20, 10, 5 * MILLIS);
    let partition_id = PartitionId::new(1);
    let mut persister = TestPersister::default();
    m.log_write(partition_id, 10, clock.now());

    persister.persist(m.maybe_persist(clock.now()));
    let stats = m.stats();
    assert_eq!(stats.total_bytes, 10);
    assert_eq!(stats.partition_stats[0].partition_id, partition_id);

    // age out the partition
    clock.sleep_millis(6);

    // validate that from before, persist wasn't called for the partition
    assert!(!persister.persist_called_for(partition_id));

    // write in data for a new partition so we can be sure it isn't persisted, but the older one is
    m.log_write(PartitionId::new(2), 6, clock.now());

    persister.persist(m.maybe_persist(clock.now()));

    assert!(persister.persist_called_for(partition_id));
    assert!(!persister.persist_called_for(PartitionId::new(2)));

    let stats = m.stats();
    assert_eq!(stats.total_bytes, 6);
    assert_eq!(stats.partition_stats.len(), 1);
    assert_eq!(stats.partition_stats[0].partition_id, PartitionId::new(2));
}

#[test]
fn persists_based_on_partition_size() {
    let mut clock = Clock::new();
    let mut m = LifecycleManager::new(30, 20, 5, 1000 * MILLIS);
    let partition_id = PartitionId::new(1);
    let mut persister = TestPersister::default();
    m.log_write(partition_id, 4, clock.now());

    persister.persist(m.maybe_persist(clock.now()));

    let stats = m.stats();
    assert_eq!(stats.total_bytes, 4);
    assert_eq!(stats.partition_stats[0].partition_id, partition_id);
    assert!(!persister.persist_called_for(partition_id));

    // introduce a new partition under the limit to verify it doesn't get taken with the other
    m.log_write(PartitionId::new(2), 3, clock.now());
    m.log_write(partition_id, 5, clock.now());

    persister.persist(m.maybe_persist(clock.now()));

    assert!(persister.persist_called_for(partition_id));
    assert!(!persister.persist_called_for(PartitionId::new(2)));

    let stats = m.stats();
    assert_eq!(stats.total_bytes, 3);
    assert_eq!(stats.partition_stats.len(), 1);
    assert_eq!(stats.partition_stats[0].partition_id, PartitionId::new(2));
}

#[test]
fn persists_based_on_memory_size() {
    let mut clock = Clock::new();
    let mut m = LifecycleManager::new(60, 20, 20, 1000 * MILLIS);
    let partition_id = PartitionId::new(1);
    let mut persister = TestPersister::default();
    m.log_write(partition_id, 8, clock.now());
    m.log_write(PartitionId::new(2), 13, clock.now());

    persister.persist(m.maybe_persist(clock.now()));

    // the bigger of the two partitions should have been persisted, leaving the smaller behind
    let stats = m.stats();
    assert_eq!(stats.total_bytes, 8);
    assert_eq!(stats.partition_stats[0].partition_id, partition_id);
    assert!(!persister.persist_called_for(partition_id));
    assert!(persister.persist_called_for(PartitionId::new(2)));

    // add that partition back in over size
    m.log_write(partition_id, 20, clock.now());
    m.log_write(PartitionId::new(2), 21, clock.now());

    // both partitions should now need to be persisted to bring us below the mem threshold of 20.
    persister.persist(m.maybe_persist(clock.now()));

    assert!(persister.persist_called_for(partition_id));
    assert!(persister.persist_called_for(PartitionId::new(2)));

    let stats = m.stats();
    assert_eq!(stats.total_bytes, 0);
    assert_eq!(stats.partition_stats.len(), 0);
}

#[test]
fn persist_based_on_partition_and_memory_size() {
    let mut clock = Clock::new();
    let mut m = LifecycleManager::new(60, 6, 5, 1000 * MILLIS);
    let mut persister = TestPersister::default();
    m.log_write(PartitionId::new(1), 4, clock.now());
    m.log_write(PartitionId::new(2), 6, clock.now());
    m.log_write(PartitionId::new(3), 3, clock.now());

    persister.persist(m.maybe_persist(clock.now()));

    // the bigger of the two partitions should have been persisted, leaving the smaller behind
    let stats = m.stats();
    assert_eq!(stats.total_bytes, 3);
    assert_eq!(stats.partition_stats[0].partition_id, PartitionId::new(3));
    assert!(!persister.persist_called_for(PartitionId::new(3)));
    assert!(persister.persist_called_for(PartitionId::new(2)));
    assert!(persister.persist_called_for(PartitionId::new(1)));
}

#[test]
fn thresholds_themselves_trigger_nothing() {
    let mut m = LifecycleManager::new(20, 10, 10, 7);
    m.log_write(PartitionId::new(1), 10, 100);

    // as old, as large and as much memory as allowed, but no more
    assert_eq!(m.maybe_persist(107).len(), 0);
    assert_eq!(m.stats().total_bytes, 10);

    // one nanosecond later it is too old
    assert_eq!(m.maybe_persist(108), vec![PartitionId::new(1)]);
    assert_eq!(m.stats().total_bytes, 0);
}

#[test]
fn memory_goes_down_to_less_than_the_threshold_if_it_has_to_go_down() {
    let mut m = LifecycleManager::new(100, 10, 50, 1000);
    m.log_write(PartitionId::new(1), 5, 0);
    m.log_write(PartitionId::new(2), 5, 0);
    m.log_write(PartitionId::new(3), 5, 0);

    // the first of equally large partitions leave 10, which is not below the threshold yet
    assert_eq!(m.maybe_persist(1), vec![PartitionId::new(1), PartitionId::new(2)]);
    assert_eq!(m.stats().total_bytes, 5);
}

#[test]
fn a_time_before_the_first_write_is_no_age() {
    let mut m = LifecycleManager::new(20, 10, 10, 0);
    m.log_write(PartitionId::new(1), 1, 100);
    assert_eq!(m.maybe_persist(50).len(), 0);
}

#[test]
fn remove_undoes_the_writes_of_a_partition() {
    let mut m = LifecycleManager::new(20, 10, 10, 0);
    m.log_write(PartitionId::new(1), 4, 1);
    m.log_write(PartitionId::new(2), 5, 2);
    m.remove(PartitionId::new(2));
    // there is nothing left to remove
    m.remove(PartitionId::new(2));
    m.remove(PartitionId::new(3));

    let stats = m.stats();
    assert_eq!(stats.total_bytes, 4);
    assert_eq!(stats.partition_stats.len(), 1);
    assert_eq!(stats.partition_stats[0].first_write, 1);
}

#[test]
fn persisting_resets_the_first_write() {
    let mut m = LifecycleManager::new(20, 10, 10, 5);
    m.log_write(PartitionId::new(1), 4, 1);
    m.log_write(PartitionId::new(1), 4, 3);
    assert_eq!(m.stats().partition_stats[0].first_write, 1);

    assert_eq!(m.maybe_persist(7), vec![PartitionId::new(1)]);
    m.log_write(PartitionId::new(1), 2, 8);
    let stats = m.stats();
    assert_eq!(stats.partition_stats[0].first_write, 8);
    assert_eq!(stats.partition_stats[0].bytes_written, 2);
}

#[test]
fn what_is_selected_depends_on_the_snapshot_alone() {
    let mut m = LifecycleManager::new(100, 10, 5, 1000);
    m.log_write(PartitionId::new(3), 4, 0);
    m.log_write(PartitionId::new(1), 6, 0);
    m.log_write(PartitionId::new(2), 9, 0);

    // the two that are too large; that leaves 4
    let plan = m.select_to_persist(m.stats(), 1);
    let ids: Vec<i64> = plan.iter().map(|s| s.partition_id.get()).collect();
    assert_eq!(ids, vec![1, 2]);
    // nothing has been removed yet
    assert_eq!(m.stats().total_bytes, 19);
}

#[test]
fn defaults() {
    assert_eq!(DEFAULT_PARTITION_SIZE_THRESHOLD, 300 * 1024 * 1024);
    assert_eq!(DEFAULT_AGE_THRESHOLD, 30 * 60 * 1_000 * MILLIS);
}

#[test]
fn writes_add_up() {
    let mut twice = LifecycleManager::new(20, 10, 5, 0);
    twice.log_write(PartitionId::new(1), 2, 4);
    twice.log_write(PartitionId::new(1), 3, 9);
    let mut once = LifecycleManager::new(20, 10, 5, 0);
    once.log_write(PartitionId::new(1), 5, 4);
    assert_eq!(twice.stats().partition_stats, once.stats().partition_stats);
}

#[test]
fn largest_partitions_go_first() {
    let mut m = LifecycleManager::new(100, 10, 50, 1000);
    m.log_write(PartitionId::new(1), 4, 0);
    m.log_write(PartitionId::new(2), 9, 0);
    m.log_write(PartitionId::new(3), 4, 0);
    m.log_write(PartitionId::new(4), 7, 0);
    assert_eq!(m.maybe_persist(1), vec![PartitionId::new(2), PartitionId::new(4)]);
    assert_eq!(m.stats().total_bytes, 8);
}

#[test]
fn the_age_counts_from_the_first_write_since_a_partition_was_taken_away() {
    let id = PartitionId::new(1);
    let first_write = |m: &LifecycleManager| {
        m.stats().partition_stats.iter().find(|p| p.partition_id == id).map(|p| p.first_write)
    };
    let mut m = LifecycleManager::new(100, 50, 10, 1_000);
    assert_eq!(first_write(&m), None);
    m.log_write(id, 1, 10);
    m.log_write(PartitionId::new(2), 20, 11);
    m.log_write(id, 1, 12);
    assert_eq!(first_write(&m), Some(10));
    // another partition that goes changes nothing
    assert_eq!(m.maybe_persist(13), vec![PartitionId::new(2)]);
    assert_eq!(first_write(&m), Some(10));
    m.remove(id);
    assert_eq!(first_write(&m), None);
    m.log_write(id, 9, 20);
    m.log_write(id, 9, 21);
    assert_eq!(first_write(&m), Some(20));
    assert_eq!(m.maybe_persist(22), vec![id]);
    assert_eq!(first_write(&m), None);
    m.log_write(id, 1, 30);
    m.log_write(id, 1, 31);
    assert_eq!(first_write(&m), Some(30));
}
