//! What the checkpoint of a database is made of when one of its partitions is persisted.

use crate::text::same_text;
use vstd::prelude::*;

verus! {

/// A partition of a table, with the numbers of the sequencers that its rows came from, if any
/// did.
#[derive(Debug)]
pub struct Partition<S> {
    pub table_name: String,
    pub key: String,
    pub sequencer_numbers: Option<S>,
}

/// The checkpoint of the partition that is being persisted.
#[derive(Debug)]
pub struct PartitionCheckpoint<C> {
    pub table_name: String,
    pub partition_key: String,
    pub rest: C,
}

/// What the checkpoint of the database is made of: the checkpoint of the partition that is being
/// persisted, and the sequencer numbers of the other partitions.
#[derive(Debug)]
pub struct CheckpointParts<'a, C, S> {
    pub partition_checkpoint: PartitionCheckpoint<C>,
    pub other_partitions: Vec<&'a S>,
}

/// The partition is that of the checkpoint.
pub open spec fn is_own<C, S>(
    partition: Partition<S>,
    checkpoint: PartitionCheckpoint<C>,
) -> bool {
    &&& partition.table_name@ == checkpoint.table_name@
    &&& partition.key@ == checkpoint.partition_key@
}

/// The sequencer numbers of the partitions other than that of the checkpoint, in their order.
pub open spec fn other_numbers<C, S>(
    partitions: Seq<Partition<S>>,
    checkpoint: PartitionCheckpoint<C>,
) -> Seq<S>
    decreases partitions.len(),
{
    if partitions.len() == 0 {
        Seq::empty()
    } else {
        let numbers = other_numbers(partitions.drop_last(), checkpoint);
        match partitions.last().sequencer_numbers {
            Some(n) if !is_own(partitions.last(), checkpoint) => numbers.push(n),
            _ => numbers,
        }
    }
}

/// Collects what the checkpoint of the database is made of, for the given partition checkpoint
/// and the partitions of all tables.
pub fn collect_checkpoints<'a, C, S>(
    partition_checkpoint: PartitionCheckpoint<C>,
    partitions: &'a [Partition<S>],
) -> (parts: CheckpointParts<'a, C, S>)
    ensures
        parts.partition_checkpoint == partition_checkpoint,
        parts.other_partitions@.unref() == other_numbers(partitions@, partition_checkpoint),
{
    let mut other_partitions: Vec<&'a S> = Vec::new();
    for i in 0..partitions.len()
        invariant
            other_partitions@.unref() == other_numbers(partitions@.take(i as int), partition_checkpoint),
    {
        let partition = &partitions[i];
        assert(partitions@.take(i + 1).drop_last() =~= partitions@.take(i as int));
        let own = same_text(
            partition.table_name.as_str(),
            partition_checkpoint.table_name.as_str(),
        ) && same_text(partition.key.as_str(), partition_checkpoint.partition_key.as_str());
        if !own {
            if let Some(sequencer_numbers) = &partition.sequencer_numbers {
                let ghost so_far = other_partitions@.unref();
                other_partitions.push(sequencer_numbers);
                assert(other_partitions@.unref() =~= so_far.push(*sequencer_numbers));
            }
        }
    }
    assert(partitions@.take(partitions@.len() as int) =~= partitions@);
    CheckpointParts { partition_checkpoint, other_partitions }
}

/// Every partition but the one that is being persisted has its part in the checkpoint, and that
/// one has none.
pub proof fn law_checkpoint_covers_other_partitions<C, S>(
    partitions: Seq<Partition<S>>,
    checkpoint: PartitionCheckpoint<C>,
)
    ensures
        forall|i: int|
            0 <= i < partitions.len() && !is_own(#[trigger] partitions[i], checkpoint) ==> (
            partitions[i].sequencer_numbers matches Some(n) ==> other_numbers(
                partitions,
                checkpoint,
            ).contains(n)),
        forall|n: S| #[trigger]
            other_numbers(partitions, checkpoint).contains(n) ==> exists|i: int|
                {
                    &&& 0 <= i < partitions.len()
                    &&& !is_own(#[trigger] partitions[i], checkpoint)
                    &&& partitions[i].sequencer_numbers == Some(n)
                },
    decreases partitions.len(),
{
    if partitions.len() > 0 {
        let before = partitions.drop_last();
        let last = partitions.len() - 1;
        let numbers = other_numbers(partitions, checkpoint);
        let fewer = other_numbers(before, checkpoint);
        law_checkpoint_covers_other_partitions(before, checkpoint);
        assert forall|n: S| fewer.contains(n) implies #[trigger] numbers.contains(n) by {
            let k = fewer.index_of(n);
            assert(numbers[k] == n);
        }
        assert forall|i: int|
            0 <= i < partitions.len() && !is_own(#[trigger] partitions[i], checkpoint) implies (
        partitions[i].sequencer_numbers matches Some(n) ==> numbers.contains(n)) by {
            if let Some(n) = partitions[i].sequencer_numbers {
                if i < last {
                    assert(before[i] == partitions[i]);
                    assert(fewer.contains(n));
                } else {
                    assert(numbers[numbers.len() - 1] == n);
                }
            }
        }
        assert forall|n: S| #[trigger] numbers.contains(n) implies exists|i: int|
            {
                &&& 0 <= i < partitions.len()
                &&& !is_own(#[trigger] partitions[i], checkpoint)
                &&& partitions[i].sequencer_numbers == Some(n)
            } by {
            if fewer.contains(n) {
                let i = choose|i: int|
                    {
                        &&& 0 <= i < before.len()
                        &&& !is_own(#[trigger] before[i], checkpoint)
                        &&& before[i].sequencer_numbers == Some(n)
                    };
                assert(partitions[i] == before[i]);
            } else {
                let k = numbers.index_of(n);
                if k < fewer.len() {
                    assert(fewer[k] == n);
                }
                assert(partitions[last] == partitions.last());
            }
        }
    }
}

/// One more partition adds its numbers behind those of the others if it has any and is another
/// one than that of the checkpoint, in its table or in its key; otherwise it adds nothing.
pub proof fn law_one_more_partition<C, S>(
    partitions: Seq<Partition<S>>,
    partition: Partition<S>,
    checkpoint: PartitionCheckpoint<C>,
)
    ensures
        other_numbers(Seq::<Partition<S>>::empty(), checkpoint) == Seq::<S>::empty(),
        other_numbers(partitions.push(partition), checkpoint) == if partition.table_name@
            == checkpoint.table_name@ && partition.key@ == checkpoint.partition_key@ {
            other_numbers(partitions, checkpoint)
        } else {
            match partition.sequencer_numbers {
                Some(numbers) => other_numbers(partitions, checkpoint).push(numbers),
                None => other_numbers(partitions, checkpoint),
            }
        },
{
    assert(partitions.push(partition).drop_last() =~= partitions);
}

/// The numbers of a partition are left out if and only if it is that of the checkpoint, both by
/// its table and by its key.
pub proof fn law_own_partition<C, S>(partition: Partition<S>, checkpoint: PartitionCheckpoint<C>)
    ensures
        is_own(partition, checkpoint) <==> partition.table_name@ == checkpoint.table_name@
            && partition.key@ == checkpoint.partition_key@,
        partition.sequencer_numbers is Some ==> (other_numbers(seq![partition], checkpoint).len()
            == 0 <==> partition.table_name@ == checkpoint.table_name@ && partition.key@
            == checkpoint.partition_key@),
{
    law_one_more_partition(Seq::empty(), partition, checkpoint);
    assert(Seq::empty().push(partition) =~= seq![partition]);
}

} // verus!
