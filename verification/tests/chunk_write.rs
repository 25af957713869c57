use iox_core::checkpoints::{Partition, PartitionCheckpoint, collect_checkpoints};
use iox_core::chunk_write::{
    CheckChunk, ChunkAddr, ChunkKey, ChunkLifecycleAction, ChunkSnapshot, ChunkStage, Error,
    FinalAction, Job, WriteFile, write_chunk_to_object_store,
};
use iox_core::object_id::Uuid;

fn key(chunk_id: u128) -> ChunkKey {
    ChunkKey {
        table_name: "cpu".to_owned(),
        partition_key: "2022".to_owned(),
        chunk_id: Uuid { value: chunk_id },
    }
}

fn addr() -> ChunkAddr {
    ChunkAddr { db_name: "db".to_owned(), key: key(1) }
}

fn chunk() -> ChunkSnapshot<String> {
    ChunkSnapshot {
        addr: addr(),
        order: 5,
        delete_predicates: vec!["a".to_owned(), "b".to_owned()],
        time_of_first_write: 10,
        time_of_last_write: 20,
    }
}

fn check_step() -> CheckChunk<String> {
    write_chunk_to_object_store(chunk(), 3).marked(Ok(())).unwrap()
}

fn write_step() -> WriteFile<String> {
    check_step()
        .checked(ChunkStage::Frozen, Some(ChunkLifecycleAction::Persisting))
        .unwrap()
}

#[test]
fn writing_a_chunk() {
    let step = write_chunk_to_object_store(chunk(), 3);
    assert_eq!(step.job(), Job::WriteChunk { chunk: addr() });
    let step = step.marked(Ok(())).unwrap();
    let step = step
        .checked(ChunkStage::Frozen, Some(ChunkLifecycleAction::Persisting))
        .unwrap();

    let metadata = step.metadata(100, "partition", "database");
    assert_eq!(metadata.creation_timestamp, 100);
    assert_eq!(metadata.table_name, "cpu");
    assert_eq!(metadata.partition_key, "2022");
    assert_eq!(metadata.chunk_id, Uuid { value: 1 });
    assert_eq!(metadata.partition_checkpoint, "partition");
    assert_eq!(metadata.database_checkpoint, "database");
    assert_eq!(metadata.time_of_first_write, 10);
    assert_eq!(metadata.time_of_last_write, 20);
    assert_eq!(metadata.chunk_order, 5);

    let step = step.written(Ok(Some("file"))).unwrap().unwrap();
    assert_eq!(*step.written_file(), "file");
    let step = step.made(Ok(())).unwrap();
    let step = step.collected(vec![("c".to_owned(), vec![key(2), key(3)])]);

    let transaction = step.transaction();
    assert_eq!(transaction.file, "file");
    assert_eq!(
        transaction.delete_predicates,
        vec![
            ("a".to_owned(), vec![key(1)]),
            ("b".to_owned(), vec![key(1)]),
            ("c".to_owned(), vec![key(2), key(3)]),
        ],
    );
    assert_eq!(
        step.committed(Ok(6)).unwrap().actions(),
        vec![
            FinalAction::FlushDeletes,
            FinalAction::MarkWritten,
            FinalAction::CreateCheckpoint,
            FinalAction::ReleaseCleanupLock,
            FinalAction::FlushPersistenceWindows,
        ],
    );
    assert!(FinalAction::CreateCheckpoint.may_fail());
    assert!(!FinalAction::MarkWritten.may_fail());
}

#[test]
fn what_stops_writing_a_chunk() {
    let error = write_chunk_to_object_store(chunk(), 3).marked(Err("busy".to_owned())).unwrap_err();
    assert_eq!(error, Error::CannotMarkChunk { source: "busy".to_owned() });

    let persisting = Some(ChunkLifecycleAction::Persisting);
    for (stage, action) in [
        (ChunkStage::Persisted, persisting),
        (ChunkStage::Frozen, None),
        (ChunkStage::Frozen, Some(ChunkLifecycleAction::Compacting)),
        (ChunkStage::Frozen, Some(ChunkLifecycleAction::Dropping)),
    ] {
        let error = check_step().checked(stage, action).unwrap_err();
        assert_eq!(error, Error::CannotWriteChunk { addr: addr() });
    }
    assert!(check_step().checked(ChunkStage::Open, persisting).is_ok());

    let error = write_step().written::<u8>(Err("full".to_owned())).unwrap_err();
    assert_eq!(error, Error::WritingToObjectStore { source: "full".to_owned() });

    // no rows, no file
    assert!(write_step().written::<u8>(Ok(None)).unwrap().is_none());

    let step = write_step().written(Ok(Some(1u8))).unwrap().unwrap();
    let error = step.made(Err("no parquet".to_owned())).unwrap_err();
    assert_eq!(error, Error::ParquetChunkError { source: "no parquet".to_owned() });

    let step = write_step().written(Ok(Some(1u8))).unwrap().unwrap().made(Ok(())).unwrap();
    let error = step.collected(vec![]).committed(Err("conflict".to_owned())).unwrap_err();
    assert_eq!(error, Error::CommitError { source: "conflict".to_owned() });
}

#[test]
fn checkpoints_recur() {
    let due: Vec<u64> = (0..10)
        .filter(|revision| {
            let step = write_step().written(Ok(Some(1u8))).unwrap().unwrap().made(Ok(())).unwrap();
            let finish = step.collected(vec![]).committed(Ok(*revision)).unwrap();
            finish.actions().contains(&FinalAction::CreateCheckpoint)
        })
        .collect();
    assert_eq!(due, vec![0, 3, 6, 9]);
}

fn partition(table_name: &str, key: &str, sequencer_numbers: Option<u64>) -> Partition<u64> {
    Partition { table_name: table_name.to_owned(), key: key.to_owned(), sequencer_numbers }
}

#[test]
fn checkpoints_of_all_other_partitions_are_collected() {
    let partitions = [
        partition("cpu", "a", Some(1)),
        partition("cpu", "b", Some(2)),
        partition("mem", "a", None),
        partition("mem", "b", Some(3)),
        partition("cpu", "c", Some(4)),
    ];
    let checkpoint = PartitionCheckpoint {
        table_name: "cpu".to_owned(),
        partition_key: "b".to_owned(),
        rest: 7,
    };
    let parts = collect_checkpoints(checkpoint, &partitions);
    assert_eq!(parts.partition_checkpoint.rest, 7);
    assert_eq!(parts.other_partitions, vec![&1, &3, &4]);
}
