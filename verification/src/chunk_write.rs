//! Writing chunks to the object store.
//!
//! A chunk is marked as being written, written as a file, and the file is added to the preserved
//! catalog in one transaction with the deletes that concern it; only then is the chunk marked as
//! written. Each step here hands out what is to be done next, and takes what came of it.

use crate::object_id::Uuid;
use vstd::prelude::*;

verus! {

/// Where a chunk is found within its database.
#[derive(Debug, PartialEq, Eq)]
pub struct ChunkKey {
    pub table_name: String,
    pub partition_key: String,
    pub chunk_id: Uuid,
}

/// Where a chunk is found.
#[derive(Debug, PartialEq, Eq)]
pub struct ChunkAddr {
    pub db_name: String,
    pub key: ChunkKey,
}

/// Where a chunk is found within its database, in terms of text.
#[verifier::ext_equal]
pub struct KeyView {
    pub table_name: Seq<char>,
    pub partition_key: Seq<char>,
    pub chunk_id: Uuid,
}

impl View for ChunkKey {
    type V = KeyView;

    open spec fn view(&self) -> KeyView {
        KeyView {
            table_name: self.table_name@,
            partition_key: self.partition_key@,
            chunk_id: self.chunk_id,
        }
    }
}

/// Where a chunk is found, in terms of text.
#[verifier::ext_equal]
pub struct AddrView {
    pub db_name: Seq<char>,
    pub key: KeyView,
}

impl View for ChunkAddr {
    type V = AddrView;

    open spec fn view(&self) -> AddrView {
        AddrView { db_name: self.db_name@, key: self.key@ }
    }
}

impl ChunkKey {
    /// The same place.
    pub fn copied(&self) -> (key: Self)
        ensures
            key@ == self@,
            key.table_name@ == self.table_name@,
            key.partition_key@ == self.partition_key@,
            key.chunk_id == self.chunk_id,
    {
        ChunkKey {
            table_name: self.table_name.clone(),
            partition_key: self.partition_key.clone(),
            chunk_id: self.chunk_id,
        }
    }
}

impl ChunkAddr {
    /// The same place.
    pub fn copied(&self) -> (addr: Self)
        ensures
            addr@ == self@,
            addr.db_name@ == self.db_name@,
            addr.key.table_name@ == self.key.table_name@,
            addr.key.partition_key@ == self.key.partition_key@,
            addr.key.chunk_id == self.key.chunk_id,
    {
        ChunkAddr { db_name: self.db_name.clone(), key: self.key.copied() }
    }
}

/// How far a chunk has come.
#[derive(Debug, Clone, Copy, PartialEq, Eq, Structural)]
pub enum ChunkStage {
    /// Rows can be added to it.
    Open,
    /// It does not change any more.
    Frozen,
    /// It is in the object store.
    Persisted,
}

/// What is being done with a chunk.
#[derive(Debug, Clone, Copy, PartialEq, Eq, Structural)]
pub enum ChunkLifecycleAction {
    Persisting,
    Compacting,
    CompactingObjectStore,
    Dropping,
    LoadingReadBuffer,
}

/// Work that is kept track of.
#[derive(Debug, PartialEq, Eq)]
pub enum Job {
    WriteChunk { chunk: ChunkAddr },
}

/// Why a chunk was not written. What others say of their errors is given in words.
#[derive(Debug, PartialEq, Eq)]
pub enum Error {
    /// The chunk could not be marked as being written.
    CannotMarkChunk { source: String },
    /// The chunk is in the object store already, or it is not being persisted.
    CannotWriteChunk { addr: ChunkAddr },
    /// The file could not be written.
    WritingToObjectStore { source: String },
    /// The file does not make a chunk.
    ParquetChunkError { source: String },
    /// The transaction could not be committed.
    CommitError { source: String },
}

/// A chunk as it is when writing it starts.
#[derive(Debug)]
pub struct ChunkSnapshot<P> {
    pub addr: ChunkAddr,
    pub order: u32,
    /// Deletes that came while the chunk was made, and are not yet part of its rows.
    pub delete_predicates: Vec<P>,
    /// In nanoseconds since the epoch.
    pub time_of_first_write: i64,
    /// In nanoseconds since the epoch.
    pub time_of_last_write: i64,
}

/// What is known of a written file. `C` and `D` are the checkpoints of the partition and of the
/// database.
#[derive(Debug)]
pub struct IoxMetadata<C, D> {
    /// In nanoseconds since the epoch.
    pub creation_timestamp: i64,
    pub table_name: String,
    pub partition_key: String,
    pub chunk_id: Uuid,
    pub partition_checkpoint: C,
    pub database_checkpoint: D,
    pub time_of_first_write: i64,
    pub time_of_last_write: i64,
    pub chunk_order: u32,
}

/// The changes that a transaction makes to the preserved catalog: it adds the file, and then the
/// deletes, each with the chunks it concerns.
#[derive(Debug)]
pub struct Transaction<P, F> {
    pub file: F,
    pub delete_predicates: Vec<(P, Vec<ChunkKey>)>,
}

/// The places of chunks, in terms of text.
pub open spec fn key_views(keys: Seq<ChunkKey>) -> Seq<KeyView> {
    keys.map_values(|k: ChunkKey| k@)
}

/// Deletes, with the places of the chunks in terms of text.
pub open spec fn deletes<P>(deletes: Seq<(P, Vec<ChunkKey>)>) -> Seq<(P, Seq<KeyView>)> {
    deletes.map_values(|d: (P, Vec<ChunkKey>)| (d.0, key_views(d.1@)))
}

/// The deletes of a chunk itself.
pub open spec fn own_deletes<P>(predicates: Seq<P>, key: KeyView) -> Seq<(P, Seq<KeyView>)> {
    predicates.map_values(|p: P| (p, seq![key]))
}

/// The chunk can be written: it is being persisted, and not in the object store yet.
pub open spec fn can_write(stage: ChunkStage, action: Option<ChunkLifecycleAction>) -> bool {
    stage != ChunkStage::Persisted && action == Some(ChunkLifecycleAction::Persisting)
}

/// A checkpoint of the preserved catalog is due after the transaction with the given number.
pub open spec fn is_checkpoint_due(revision_counter: u64, transactions: u64) -> bool {
    revision_counter as int % transactions as int == 0
}

/// A chunk to be written, where a checkpoint of the preserved catalog is created every so many
/// transactions.
#[derive(Debug)]
pub struct WriteTask<P> {
    pub chunk: ChunkSnapshot<P>,
    pub catalog_transactions_until_checkpoint: u64,
}

/// The chunk is to be marked as being written.
#[derive(Debug)]
pub struct MarkWriting<P> {
    task: WriteTask<P>,
}

/// The chunk is to be looked at once more before it is written.
#[derive(Debug)]
pub struct CheckChunk<P> {
    task: WriteTask<P>,
}

/// The rows are to be written to a file. Files must not be cleaned up from here on, until
/// the cleanup lock is released.
#[derive(Debug)]
pub struct WriteFile<P> {
    task: WriteTask<P>,
}

/// A chunk is to be made of the file.
#[derive(Debug)]
pub struct MakeChunk<P, F> {
    task: WriteTask<P>,
    file: F,
}

/// The deletes that wait to be made durable are to be fetched.
#[derive(Debug)]
pub struct CollectDeletes<P, F> {
    task: WriteTask<P>,
    file: F,
}

/// The transaction is to be committed.
#[derive(Debug)]
pub struct Commit<P, F> {
    catalog_transactions_until_checkpoint: u64,
    transaction: Transaction<P, F>,
}

/// What is left to be done once the transaction has been committed.
#[derive(Debug, Clone, Copy, PartialEq, Eq, Structural)]
pub enum FinalAction {
    /// The deletes of the transaction are durable and wait no more.
    FlushDeletes,
    /// The chunk in memory becomes that of the file.
    MarkWritten,
    /// The preserved catalog gets a checkpoint.
    CreateCheckpoint,
    /// Files may be cleaned up again.
    ReleaseCleanupLock,
    /// The rows leave the persistence windows.
    FlushPersistenceWindows,
}

impl FinalAction {
    /// Whether it does not matter if the action fails. That there is no checkpoint is somewhat
    /// all right, because by then the chunk is preserved; anything else is not.
    pub fn may_fail(self) -> (may_fail: bool)
        ensures
            may_fail == (self == FinalAction::CreateCheckpoint),
    {
        match self {
            FinalAction::CreateCheckpoint => true,
            _ => false,
        }
    }
}

/// The transaction has been committed.
#[derive(Debug)]
pub struct Finish {
    create_checkpoint: bool,
}

/// The chunk was marked as being written, or was not for the given reason.
pub open spec fn is_marked<P>(
    step: MarkWriting<P>,
    marked: Result<(), String>,
    result: Result<CheckChunk<P>, Error>,
) -> bool {
    match (marked, result) {
        (Ok(_), Ok(next)) => next.task() == step.task(),
        (Err(e), Err(Error::CannotMarkChunk { source })) => source == e,
        _ => false,
    }
}

/// The chunk is written if it can be.
pub open spec fn is_checked<P>(
    step: CheckChunk<P>,
    stage: ChunkStage,
    action: Option<ChunkLifecycleAction>,
    result: Result<WriteFile<P>, Error>,
) -> bool {
    match result {
        Ok(next) => {
            &&& can_write(stage, action)
            &&& next.task() == step.task()
        },
        Err(Error::CannotWriteChunk { addr }) => {
            &&& !can_write(stage, action)
            &&& addr == step.task().chunk.addr
        },
        Err(_) => false,
    }
}

/// A file was written, or there were no rows, or it was not written for the given reason.
pub open spec fn is_written<P, F>(
    step: WriteFile<P>,
    written: Result<Option<F>, String>,
    result: Result<Option<MakeChunk<P, F>>, Error>,
) -> bool {
    match (written, result) {
        (Ok(Some(file)), Ok(Some(next))) => {
            &&& next.task() == step.task()
            &&& next.file() == file
        },
        (Ok(None), Ok(None)) => true,
        (Err(e), Err(Error::WritingToObjectStore { source })) => source == e,
        _ => false,
    }
}

/// A chunk was made of the file, or was not for the given reason.
pub open spec fn is_made<P, F>(
    step: MakeChunk<P, F>,
    made: Result<(), String>,
    result: Result<CollectDeletes<P, F>, Error>,
) -> bool {
    match (made, result) {
        (Ok(_), Ok(next)) => {
            &&& next.task() == step.task()
            &&& next.file() == step.file()
        },
        (Err(e), Err(Error::ParquetChunkError { source })) => source == e,
        _ => false,
    }
}

/// The deletes were collected: those of the chunk itself, and behind them those that waited.
pub open spec fn is_collected<P, F>(
    step: CollectDeletes<P, F>,
    outbox: Seq<(P, Vec<ChunkKey>)>,
    next: Commit<P, F>,
) -> bool {
    let chunk = step.task().chunk;
    &&& next.transactions() == step.task().catalog_transactions_until_checkpoint
    &&& next.transaction_view().file == step.file()
    &&& deletes(next.transaction_view().delete_predicates@) == own_deletes(
        chunk.delete_predicates@,
        chunk.addr.key@,
    ) + deletes(outbox)
}

/// The transaction was committed, or was not for the given reason.
pub open spec fn is_committed<P, F>(
    step: Commit<P, F>,
    committed: Result<u64, String>,
    result: Result<Finish, Error>,
) -> bool {
    match (committed, result) {
        (Ok(revision_counter), Ok(next)) => next.creates_checkpoint() == is_checkpoint_due(
            revision_counter,
            step.transactions(),
        ),
        (Err(e), Err(Error::CommitError { source })) => source == e,
        _ => false,
    }
}

/// What comes of writing a chunk, given what comes of each thing that is done for it: `None` if
/// there were no rows, otherwise whether a checkpoint was due.
pub open spec fn write_outcome<P, F>(
    task: WriteTask<P>,
    marked: Result<(), String>,
    stage: ChunkStage,
    action: Option<ChunkLifecycleAction>,
    written: Result<Option<F>, String>,
    made: Result<(), String>,
    committed: Result<u64, String>,
) -> Result<Option<bool>, Error> {
    match (marked, written, made, committed) {
        (Err(source), _, _, _) => Err(Error::CannotMarkChunk { source }),
        _ if !can_write(stage, action) => Err(Error::CannotWriteChunk { addr: task.chunk.addr }),
        (_, Err(source), _, _) => Err(Error::WritingToObjectStore { source }),
        (_, Ok(None), _, _) => Ok(None),
        (_, _, Err(source), _) => Err(Error::ParquetChunkError { source }),
        (_, _, _, Err(source)) => Err(Error::CommitError { source }),
        (_, _, _, Ok(revision_counter)) => Ok(
            Some(is_checkpoint_due(revision_counter, task.catalog_transactions_until_checkpoint)),
        ),
    }
}

/// The steps, taken one after another until one fails, come to what writing the chunk comes to.
/// A file is written only for a chunk that can be written; a transaction is committed only with
/// a file that makes a chunk, and then has that file and every delete of the chunk itself and of
/// those that waited. What is left to be done then, the chunk being marked as written and its rows
/// leaving the persistence windows among it, is handed out only if the transaction was committed.
pub proof fn law_steps_write_the_chunk<P, F>(
    task: WriteTask<P>,
    marked: Result<(), String>,
    stage: ChunkStage,
    action: Option<ChunkLifecycleAction>,
    written: Result<Option<F>, String>,
    made: Result<(), String>,
    outbox: Seq<(P, Vec<ChunkKey>)>,
    committed: Result<u64, String>,
    first: MarkWriting<P>,
    second: Result<CheckChunk<P>, Error>,
    third: Result<WriteFile<P>, Error>,
    fourth: Result<Option<MakeChunk<P, F>>, Error>,
    fifth: Result<CollectDeletes<P, F>, Error>,
    sixth: Commit<P, F>,
    last: Result<Finish, Error>,
)
    requires
        first.task() == task,
        is_marked(first, marked, second),
        second matches Ok(step) ==> is_checked(step, stage, action, third),
        second is Ok ==> (third matches Ok(step) ==> is_written(step, written, fourth)),
        second is Ok && third is Ok ==> (fourth matches Ok(Some(step)) ==> is_made(
            step,
            made,
            fifth,
        )),
        second is Ok && third is Ok && (fourth matches Ok(Some(_))) ==> (fifth matches Ok(step)
            ==> is_collected(step, outbox, sixth) && is_committed(sixth, committed, last)),
    ensures
        write_outcome(task, marked, stage, action, written, made, committed) == match (
            second,
            third,
            fourth,
            fifth,
        ) {
            (Err(error), _, _, _) => Err(error),
            (_, Err(error), _, _) => Err(error),
            (_, _, Err(error), _) => Err(error),
            (_, _, Ok(None), _) => Ok(None),
            (_, _, _, Err(error)) => Err(error),
            (_, _, _, Ok(_)) => match last {
                Ok(finish) => Ok(Some(finish.creates_checkpoint())),
                Err(error) => Err(error),
            },
        },
        second is Ok && third is Ok && fifth is Ok && (fourth matches Ok(Some(_))) ==> {
            &&& written == Ok::<Option<F>, String>(Some(sixth.transaction_view().file))
            &&& deletes(sixth.transaction_view().delete_predicates@) == own_deletes(
                task.chunk.delete_predicates@,
                task.chunk.addr.key@,
            ) + deletes(outbox)
            &&& last is Ok <==> committed is Ok
            &&& last matches Ok(finish) ==> {
                let left = final_actions(finish.creates_checkpoint());
                &&& left == final_actions(
                    is_checkpoint_due(
                        committed->Ok_0,
                        task.catalog_transactions_until_checkpoint,
                    ),
                )
                &&& left[1] == FinalAction::MarkWritten
                &&& left.last() == FinalAction::FlushPersistenceWindows
            }
        },
{
}

/// A chunk is written if and only if it is being persisted and is not in the object store yet;
/// a refusal names where it is found. What is to be done in all stays the same.
pub proof fn law_written_only_while_persisting<P>(
    step: CheckChunk<P>,
    stage: ChunkStage,
    action: Option<ChunkLifecycleAction>,
    result: Result<WriteFile<P>, Error>,
)
    requires
        is_checked(step, stage, action, result),
    ensures
        result is Ok <==> {
            &&& stage == ChunkStage::Open || stage == ChunkStage::Frozen
            &&& action == Some(ChunkLifecycleAction::Persisting)
        },
        result matches Ok(next) ==> next.task() == step.task(),
        result matches Err(error) ==> (error matches Error::CannotWriteChunk { addr } && addr
            == step.task().chunk.addr),
{
}

/// What each of the steps hands on is what was done, and what went wrong is told by which of them
/// it was.
pub proof fn law_steps_hand_on_what_was_done<P, F>(
    first: MarkWriting<P>,
    marked: Result<(), String>,
    second: Result<CheckChunk<P>, Error>,
    third: WriteFile<P>,
    written: Result<Option<F>, String>,
    fourth: Result<Option<MakeChunk<P, F>>, Error>,
    made: Result<(), String>,
    fifth: Result<CollectDeletes<P, F>, Error>,
)
    requires
        is_marked(first, marked, second),
        is_written(third, written, fourth),
        fourth matches Ok(Some(step)) ==> is_made(step, made, fifth),
    ensures
        second is Ok <==> marked is Ok,
        second matches Ok(step) ==> step.task() == first.task(),
        marked matches Err(e) ==> (second matches Err(Error::CannotMarkChunk { source }) && source
            == e),
        written matches Err(e) ==> (fourth matches Err(Error::WritingToObjectStore { source })
            && source == e),
        written matches Ok(None) ==> fourth matches Ok(None),
        written matches Ok(Some(file)) ==> {
            &&& fourth matches Ok(Some(step))
            &&& step.task() == third.task()
            &&& step.file() == file
            &&& fifth is Ok <==> made is Ok
            &&& fifth matches Ok(next) ==> next.task() == third.task() && next.file() == file
            &&& made matches Err(e) ==> (fifth matches Err(Error::ParquetChunkError { source })
                && source == e)
        },
{
}

/// The transaction has the file, and then, one by one, the deletes of the chunk itself, each
/// concerning this chunk alone, and behind them those that waited, each with its chunks.
pub proof fn law_transaction_delete_by_delete<P, F>(
    step: CollectDeletes<P, F>,
    outbox: Seq<(P, Vec<ChunkKey>)>,
    next: Commit<P, F>,
    i: int,
)
    requires
        is_collected(step, outbox, next),
        0 <= i < next.transaction_view().delete_predicates@.len(),
    ensures
        ({
            let all = next.transaction_view().delete_predicates@;
            let own = step.task().chunk.delete_predicates@;
            let key = step.task().chunk.addr.key;
            &&& next.transaction_view().file == step.file()
            &&& next.transactions() == step.task().catalog_transactions_until_checkpoint
            &&& all.len() == own.len() + outbox.len()
            &&& i < own.len() ==> {
                &&& all[i].0 == own[i]
                &&& all[i].1@.len() == 1
                &&& all[i].1@[0].table_name@ == key.table_name@
                &&& all[i].1@[0].partition_key@ == key.partition_key@
                &&& all[i].1@[0].chunk_id == key.chunk_id
            }
            &&& i >= own.len() ==> {
                let waited = outbox[i - own.len()];
                &&& all[i].0 == waited.0
                &&& all[i].1@.len() == waited.1@.len()
                &&& forall|k: int|
                    0 <= k < waited.1@.len() ==> {
                        &&& (#[trigger] all[i].1@[k]).table_name@ == waited.1@[k].table_name@
                        &&& all[i].1@[k].partition_key@ == waited.1@[k].partition_key@
                        &&& all[i].1@[k].chunk_id == waited.1@[k].chunk_id
                    }
            }
        }),
{
    let all = next.transaction_view().delete_predicates@;
    let own = step.task().chunk.delete_predicates@;
    let key = step.task().chunk.addr.key;
    let expected = own_deletes(own, key@) + deletes(outbox);
    assert(deletes(all).len() == all.len());
    assert(own_deletes(own, key@).len() == own.len());
    assert(deletes(outbox).len() == outbox.len());
    assert(deletes(all)[i] == expected[i]);
    assert(deletes(all)[i] == (all[i].0, key_views(all[i].1@)));
    if i < own.len() {
        assert(expected[i] == (own[i], seq![key@]));
        assert(key_views(all[i].1@).len() == 1);
        assert(all[i].1@.len() == 1);
        assert(key_views(all[i].1@)[0] == all[i].1@[0]@);
    } else {
        let waited = outbox[i - own.len()];
        assert(expected[i] == (waited.0, key_views(waited.1@)));
        assert(key_views(all[i].1@).len() == key_views(waited.1@).len());
        assert forall|k: int| 0 <= k < waited.1@.len() implies {
            &&& (#[trigger] all[i].1@[k]).table_name@ == waited.1@[k].table_name@
            &&& all[i].1@[k].partition_key@ == waited.1@[k].partition_key@
            &&& all[i].1@[k].chunk_id == waited.1@[k].chunk_id
        } by {
            assert(key_views(all[i].1@)[k] == all[i].1@[k]@);
            assert(key_views(waited.1@)[k] == waited.1@[k]@);
        }
    }
}

/// A checkpoint is created exactly if the number of the transaction is a multiple of the number of
/// transactions from one checkpoint to the next.
pub proof fn law_checkpoint_at_multiples<P, F>(
    step: Commit<P, F>,
    committed: Result<u64, String>,
    result: Result<Finish, Error>,
)
    requires
        step.transactions() > 0,
        is_committed(step, committed, result),
    ensures
        committed matches Ok(revision) ==> {
            &&& result matches Ok(finish)
            &&& finish.creates_checkpoint() <==> exists|n: int| #[trigger]
                (n * step.transactions()) == revision
        },
        committed matches Err(e) ==> (result matches Err(Error::CommitError { source }) && source
            == e),
{
    if let Ok(revision) = committed {
        let n = step.transactions() as int;
        vstd::arithmetic::div_mod::lemma_fundamental_div_mod(revision as int, n);
        let q = revision as int / n;
        assert(n * q == q * n) by (nonlinear_arith);
        if revision as int % n == 0 {
            assert(q * step.transactions() == revision);
        }
        if exists|k: int| #[trigger] (k * step.transactions()) == revision {
            let k = choose|k: int| #[trigger] (k * step.transactions()) == revision;
            vstd::arithmetic::div_mod::lemma_mod_multiples_basic(k, n);
        }
    }
}

/// What is left to be done once the transaction has been committed, in this order: the deletes
/// are flushed before the chunk is marked as written, files may be cleaned up only after that, and
/// the rows leave the persistence windows last. A checkpoint makes no difference to the rest.
pub proof fn law_what_is_left(create_checkpoint: bool)
    ensures
        create_checkpoint ==> final_actions(create_checkpoint) == seq![
            FinalAction::FlushDeletes,
            FinalAction::MarkWritten,
            FinalAction::CreateCheckpoint,
            FinalAction::ReleaseCleanupLock,
            FinalAction::FlushPersistenceWindows,
        ],
        !create_checkpoint ==> final_actions(create_checkpoint) == seq![
            FinalAction::FlushDeletes,
            FinalAction::MarkWritten,
            FinalAction::ReleaseCleanupLock,
            FinalAction::FlushPersistenceWindows,
        ],
{
    assert(final_actions(true) =~= seq![
        FinalAction::FlushDeletes,
        FinalAction::MarkWritten,
        FinalAction::CreateCheckpoint,
        FinalAction::ReleaseCleanupLock,
        FinalAction::FlushPersistenceWindows,
    ]);
    assert(final_actions(false) =~= seq![
        FinalAction::FlushDeletes,
        FinalAction::MarkWritten,
        FinalAction::ReleaseCleanupLock,
        FinalAction::FlushPersistenceWindows,
    ]);
}

/// What is known of a written file is what was known of the chunk, word for word and number for
/// number.
pub proof fn law_metadata_is_that_of_the_chunk<P, C, D>(
    metadata: IoxMetadata<C, D>,
    chunk: ChunkSnapshot<P>,
    creation_timestamp: i64,
    partition_checkpoint: C,
    database_checkpoint: D,
)
    requires
        is_metadata(
            metadata,
            chunk,
            creation_timestamp,
            partition_checkpoint,
            database_checkpoint,
        ),
    ensures
        metadata.creation_timestamp == creation_timestamp,
        metadata.table_name@ == chunk.addr.key.table_name@,
        metadata.partition_key@ == chunk.addr.key.partition_key@,
        metadata.chunk_id.value == chunk.addr.key.chunk_id.value,
        metadata.partition_checkpoint == partition_checkpoint,
        metadata.database_checkpoint == database_checkpoint,
        metadata.time_of_first_write == chunk.time_of_first_write,
        metadata.time_of_last_write == chunk.time_of_last_write,
        metadata.chunk_order == chunk.order,
{
}

/// Among as many transactions in a row as there are from one checkpoint to the next, exactly one
/// makes a checkpoint due.
pub proof fn law_checkpoints_recur(first: u64, transactions: u64)
    requires
        transactions > 0,
        first + transactions <= u64::MAX,
    ensures
        exists|due: u64|
            {
                &&& first <= due < first + transactions
                &&& #[trigger] is_checkpoint_due(due, transactions)
                &&& forall|other: u64|
                    first <= other < first + transactions && #[trigger] is_checkpoint_due(
                        other,
                        transactions,
                    ) ==> other == due
            },
{
    let n = transactions as int;
    let r = first as int % n;
    vstd::arithmetic::div_mod::lemma_fundamental_div_mod(first as int, n);
    let q = first as int / n;
    let due = if r == 0 {
        first
    } else {
        (first + (n - r)) as u64
    };
    if r == 0 {
    } else {
        assert(due as int == n * (q + 1)) by (nonlinear_arith)
            requires
                due as int == first as int + (n - r),
                first as int == n * q + r,
        ;
        vstd::arithmetic::div_mod::lemma_mod_multiples_basic(q + 1, n);
        assert(n * (q + 1) == (q + 1) * n) by (nonlinear_arith);
    }
    assert(is_checkpoint_due(due, transactions));
    assert forall|other: u64|
        first <= other < first + transactions && #[trigger] is_checkpoint_due(
            other,
            transactions,
        ) implies other == due by {
        let d = other as int - due as int;
        vstd::arithmetic::div_mod::lemma_fundamental_div_mod(other as int, n);
        vstd::arithmetic::div_mod::lemma_fundamental_div_mod(due as int, n);
        let a = other as int / n;
        let b = due as int / n;
        assert(d == n * (a - b)) by (nonlinear_arith)
            requires
                d == other as int - due as int,
                other as int == n * a,
                due as int == n * b,
        ;
        assert(a == b) by (nonlinear_arith)
            requires
                d == n * (a - b),
                -n < d < n,
                n > 0,
        ;
    }
}

impl<P> MarkWriting<P> {
    /// What is to be done in all.
    pub closed spec fn task(&self) -> WriteTask<P> {
        self.task
    }

    /// The work to be kept track of.
    pub fn job(&self) -> (job: Job)
        ensures
            job matches Job::WriteChunk { chunk } && chunk@ == self.task().chunk.addr@,
            job matches Job::WriteChunk { chunk } && {
                let addr = self.task().chunk.addr;
                &&& chunk.db_name@ == addr.db_name@
                &&& chunk.key.table_name@ == addr.key.table_name@
                &&& chunk.key.partition_key@ == addr.key.partition_key@
                &&& chunk.key.chunk_id == addr.key.chunk_id
            },
    {
        Job::WriteChunk { chunk: self.task.chunk.addr.copied() }
    }

    /// Goes on if the chunk was marked as being written.
    pub fn marked(self, marked: Result<(), String>) -> (result: Result<CheckChunk<P>, Error>)
        ensures
            is_marked(self, marked, result),
            match marked {
                Ok(_) => result matches Ok(next) && next.task() == self.task(),
                Err(e) => result matches Err(Error::CannotMarkChunk { source }) && source == e,
            },
    {
        match marked {
            Ok(_) => Ok(CheckChunk { task: self.task }),
            Err(source) => Err(Error::CannotMarkChunk { source }),
        }
    }
}

impl<P> CheckChunk<P> {
    /// What is to be done in all.
    pub closed spec fn task(&self) -> WriteTask<P> {
        self.task
    }

    /// Goes on if the chunk, as it is by now, can be written.
    pub fn checked(self, stage: ChunkStage, action: Option<ChunkLifecycleAction>) -> (result:
        Result<WriteFile<P>, Error>)
        ensures
            is_checked(self, stage, action, result),
            result is Ok <==> stage != ChunkStage::Persisted && action == Some(
                ChunkLifecycleAction::Persisting,
            ),
            result matches Ok(next) ==> next.task() == self.task(),
            result matches Err(error) ==> (error matches Error::CannotWriteChunk { addr } && addr
                == self.task().chunk.addr),
    {
        let persisting = match action {
            Some(ChunkLifecycleAction::Persisting) => true,
            _ => false,
        };
        if stage == ChunkStage::Persisted || !persisting {
            return Err(Error::CannotWriteChunk { addr: self.task.chunk.addr });
        }
        Ok(WriteFile { task: self.task })
    }
}

/// The metadata is that of the chunk.
pub open spec fn is_metadata<P, C, D>(
    metadata: IoxMetadata<C, D>,
    chunk: ChunkSnapshot<P>,
    creation_timestamp: i64,
    partition_checkpoint: C,
    database_checkpoint: D,
) -> bool {
    &&& metadata.creation_timestamp == creation_timestamp
    &&& metadata.table_name@ == chunk.addr.key.table_name@
    &&& metadata.partition_key@ == chunk.addr.key.partition_key@
    &&& metadata.chunk_id == chunk.addr.key.chunk_id
    &&& metadata.partition_checkpoint == partition_checkpoint
    &&& metadata.database_checkpoint == database_checkpoint
    &&& metadata.time_of_first_write == chunk.time_of_first_write
    &&& metadata.time_of_last_write == chunk.time_of_last_write
    &&& metadata.chunk_order == chunk.order
}

impl<P> WriteFile<P> {
    /// What is to be done in all.
    pub closed spec fn task(&self) -> WriteTask<P> {
        self.task
    }

    /// What is to be written to the file beside the rows.
    pub fn metadata<C, D>(
        &self,
        creation_timestamp: i64,
        partition_checkpoint: C,
        database_checkpoint: D,
    ) -> (metadata: IoxMetadata<C, D>)
        ensures
            is_metadata(
                metadata,
                self.task().chunk,
                creation_timestamp,
                partition_checkpoint,
                database_checkpoint,
            ),
            metadata.creation_timestamp == creation_timestamp,
            metadata.table_name@ == self.task().chunk.addr.key.table_name@,
            metadata.partition_key@ == self.task().chunk.addr.key.partition_key@,
            metadata.chunk_id == self.task().chunk.addr.key.chunk_id,
            metadata.partition_checkpoint == partition_checkpoint,
            metadata.database_checkpoint == database_checkpoint,
            metadata.time_of_first_write == self.task().chunk.time_of_first_write,
            metadata.time_of_last_write == self.task().chunk.time_of_last_write,
            metadata.chunk_order == self.task().chunk.order,
    {
        IoxMetadata {
            creation_timestamp,
            table_name: self.task.chunk.addr.key.table_name.clone(),
            partition_key: self.task.chunk.addr.key.partition_key.clone(),
            chunk_id: self.task.chunk.addr.key.chunk_id,
            partition_checkpoint,
            database_checkpoint,
            time_of_first_write: self.task.chunk.time_of_first_write,
            time_of_last_write: self.task.chunk.time_of_last_write,
            chunk_order: self.task.chunk.order,
        }
    }

    /// Goes on if a file was written, which it is not if there are no rows.
    pub fn written<F>(self, written: Result<Option<F>, String>) -> (result: Result<
        Option<MakeChunk<P, F>>,
        Error,
    >)
        ensures
            is_written(self, written, result),
            match written {
                Ok(Some(file)) => result matches Ok(Some(next)) && next.task() == self.task()
                    && next.file() == file,
                Ok(None) => result matches Ok(None),
                Err(e) => result matches Err(Error::WritingToObjectStore { source }) && source == e,
            },
    {
        match written {
            Ok(Some(file)) => Ok(Some(MakeChunk { task: self.task, file })),
            // the stream was empty
            Ok(None) => Ok(None),
            Err(source) => Err(Error::WritingToObjectStore { source }),
        }
    }
}

impl<P, F> MakeChunk<P, F> {
    /// What is to be done in all.
    pub closed spec fn task(&self) -> WriteTask<P> {
        self.task
    }

    /// The written file.
    pub closed spec fn file(&self) -> F {
        self.file
    }

    /// The file that a chunk is to be made of.
    pub fn written_file(&self) -> (file: &F)
        ensures
            *file == self.file(),
    {
        &self.file
    }

    /// Goes on if a chunk was made of the file.
    pub fn made(self, made: Result<(), String>) -> (result: Result<CollectDeletes<P, F>, Error>)
        ensures
            is_made(self, made, result),
            match made {
                Ok(_) => result matches Ok(next) && next.task() == self.task() && next.file()
                    == self.file(),
                Err(e) => result matches Err(Error::ParquetChunkError { source }) && source == e,
            },
    {
        match made {
            Ok(_) => Ok(CollectDeletes { task: self.task, file: self.file }),
            Err(source) => Err(Error::ParquetChunkError { source }),
        }
    }
}

impl<P, F> CollectDeletes<P, F> {
    /// What is to be done in all.
    pub closed spec fn task(&self) -> WriteTask<P> {
        self.task
    }

    /// The written file.
    pub closed spec fn file(&self) -> F {
        self.file
    }

    /// Goes on with the transaction: the file, the deletes of the chunk itself, and those that
    /// wait to be made durable.
    pub fn collected(self, outbox: Vec<(P, Vec<ChunkKey>)>) -> (next: Commit<P, F>)
        ensures
            is_collected(self, outbox@, next),
            next.transactions() == self.task().catalog_transactions_until_checkpoint,
            next.transaction_view().file == self.file(),
    {
        let ghost own = own_deletes(self.task.chunk.delete_predicates@, self.task.chunk.addr.key@);
        let ghost waiting = outbox@;
        let key = self.task.chunk.addr.key;
        let ghost own_predicates = self.task.chunk.delete_predicates@;
        let mut delete_predicates: Vec<(P, Vec<ChunkKey>)> = Vec::new();
        for predicate in it: self.task.chunk.delete_predicates
            invariant
                it.seq() == own_predicates,
                own == own_deletes(own_predicates, key@),
                deletes(delete_predicates@) == own.take(it.index() as int),
        {
            let ghost so_far = deletes(delete_predicates@);
            let mut keys: Vec<ChunkKey> = Vec::new();
            keys.push(key.copied());
            assert(key_views(keys@) =~= seq![key@]);
            let ghost last = (predicate, key_views(keys@));
            delete_predicates.push((predicate, keys));
            assert(deletes(delete_predicates@) =~= so_far.push(last));
            assert(own.take(it.index() + 1) =~= own.take(it.index() as int).push(
                own[it.index() as int],
            ));
        }
        assert(own.take(own.len() as int) =~= own);
        assert(own + deletes(waiting).take(0) =~= own);
        for delete in it: outbox
            invariant
                it.seq() == waiting,
                deletes(delete_predicates@) == own + deletes(waiting).take(it.index() as int),
        {
            let ghost so_far = deletes(delete_predicates@);
            let ghost last = (delete.0, key_views(delete.1@));
            delete_predicates.push(delete);
            assert(deletes(delete_predicates@) =~= so_far.push(last));
            assert(own + deletes(waiting).take(it.index() + 1) =~= so_far.push(last));
        }
        assert(deletes(waiting).take(waiting.len() as int) =~= deletes(waiting));
        Commit {
            catalog_transactions_until_checkpoint: self.task.catalog_transactions_until_checkpoint,
            transaction: Transaction { file: self.file, delete_predicates },
        }
    }
}

impl<P, F> Commit<P, F> {
    /// The number of transactions from one checkpoint to the next.
    pub closed spec fn transactions(&self) -> u64 {
        self.catalog_transactions_until_checkpoint
    }

    /// The transaction to be committed.
    pub closed spec fn transaction_view(&self) -> Transaction<P, F> {
        self.transaction
    }

    /// The transaction to be committed.
    pub fn transaction(&self) -> (transaction: &Transaction<P, F>)
        ensures
            *transaction == self.transaction_view(),
    {
        &self.transaction
    }

    /// Goes on if the transaction was committed, given its number.
    pub fn committed(self, committed: Result<u64, String>) -> (result: Result<Finish, Error>)
        requires
            self.transactions() > 0,
        ensures
            is_committed(self, committed, result),
            match committed {
                Ok(revision) => result matches Ok(next) && next.creates_checkpoint() == (revision
                    as int % self.transactions() as int == 0),
                Err(e) => result matches Err(Error::CommitError { source }) && source == e,
            },
    {
        match committed {
            Ok(revision_counter) => {
                let create_checkpoint = revision_counter
                    % self.catalog_transactions_until_checkpoint == 0;
                Ok(Finish { create_checkpoint })
            },
            Err(source) => Err(Error::CommitError { source }),
        }
    }
}

impl Finish {
    /// A checkpoint is to be created.
    pub closed spec fn creates_checkpoint(&self) -> bool {
        self.create_checkpoint
    }

    /// What is left to be done, in this order.
    pub fn actions(&self) -> (actions: Vec<FinalAction>)
        ensures
            actions@ == final_actions(self.creates_checkpoint()),
            actions@ == if self.creates_checkpoint() {
                seq![
                    FinalAction::FlushDeletes,
                    FinalAction::MarkWritten,
                    FinalAction::CreateCheckpoint,
                    FinalAction::ReleaseCleanupLock,
                    FinalAction::FlushPersistenceWindows,
                ]
            } else {
                seq![
                    FinalAction::FlushDeletes,
                    FinalAction::MarkWritten,
                    FinalAction::ReleaseCleanupLock,
                    FinalAction::FlushPersistenceWindows,
                ]
            },
    {
        let mut actions: Vec<FinalAction> = Vec::new();
        actions.push(FinalAction::FlushDeletes);
        actions.push(FinalAction::MarkWritten);
        if self.create_checkpoint {
            actions.push(FinalAction::CreateCheckpoint);
        }
        actions.push(FinalAction::ReleaseCleanupLock);
        actions.push(FinalAction::FlushPersistenceWindows);
        assert(actions@ =~= final_actions(self.create_checkpoint));
        actions
    }
}

/// What is left to be done once the transaction has been committed: the deletes are flushed, the
/// chunk is marked as written, a checkpoint is created if one is due, files may be cleaned up
/// again, and last the rows leave the persistence windows.
pub open spec fn final_actions(create_checkpoint: bool) -> Seq<FinalAction> {
    let marked = seq![FinalAction::FlushDeletes, FinalAction::MarkWritten];
    let preserved = if create_checkpoint {
        marked.push(FinalAction::CreateCheckpoint)
    } else {
        marked
    };
    preserved.push(FinalAction::ReleaseCleanupLock).push(FinalAction::FlushPersistenceWindows)
}

/// Starts writing a chunk to the object store. A checkpoint of the preserved catalog is created
/// every so many transactions.
pub fn write_chunk_to_object_store<P>(
    chunk: ChunkSnapshot<P>,
    catalog_transactions_until_checkpoint: u64,
) -> (first: MarkWriting<P>)
    requires
        catalog_transactions_until_checkpoint > 0,
    ensures
        first.task() == (WriteTask { chunk, catalog_transactions_until_checkpoint }),
{
    MarkWriting { task: WriteTask { chunk, catalog_transactions_until_checkpoint } }
}

} // verus!
