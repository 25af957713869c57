//! Updating the catalog once a batch has been persisted.
//!
//! The batch is already persisted, hence its metadata and applied tombstones are to be added to
//! the catalog, and then the batch is to be removed from memory. Each step here hands out what
//! is to be done next, and takes what came of it.

use crate::object_id::Uuid;
use crate::text::joined;
use vstd::prelude::*;

verus! {

use crate::object_id::uuid_text;

/// Why the catalog was not updated. What the catalog and the buffer say of their own errors is
/// given in words.
#[derive(Debug, PartialEq, Eq)]
pub enum Error {
    /// The metadata is that of another batch.
    NoMatch { persisting_batch_id: Uuid, metadata_id: Uuid },
    /// The catalog did not take the file and its tombstones.
    UpdateCatalog { source: String },
    /// The buffer did not remove the batch.
    RemoveBatch { source: String },
}

/// What an error says, in words.
pub open spec fn error_text(error: Error) -> Seq<char> {
    match error {
        Error::NoMatch { persisting_batch_id, metadata_id } => {
            "The Object Store ID of the Persisting Batch ("@ + uuid_text(persisting_batch_id.value)
                + ") and its metadata ("@ + uuid_text(metadata_id.value) + ") are not matched"@
        },
        Error::UpdateCatalog { source } => {
            "Error while insert parquet file and its corresponding processed tombstones in the catalog: "@
                + source@
        },
        Error::RemoveBatch { source } => {
            "Error while removing a persisted batch from Data Buffer: "@ + source@
        },
    }
}

impl Error {
    /// What the error says, in words.
    pub fn message(&self) -> (message: String)
        ensures
            message@ == error_text(*self),
            match *self {
                Error::NoMatch { persisting_batch_id, metadata_id } => message@
                    == "The Object Store ID of the Persisting Batch ("@ + uuid_text(
                    persisting_batch_id.value,
                ) + ") and its metadata ("@ + uuid_text(metadata_id.value) + ") are not matched"@,
                Error::UpdateCatalog { source } => message@
                    == "Error while insert parquet file and its corresponding processed tombstones in the catalog: "@
                    + source@,
                Error::RemoveBatch { source } => message@
                    == "Error while removing a persisted batch from Data Buffer: "@ + source@,
            },
    {
        match self {
            Error::NoMatch { persisting_batch_id, metadata_id } => {
                let message = joined(
                    "The Object Store ID of the Persisting Batch (",
                    persisting_batch_id.text().as_str(),
                );
                let message = joined(message.as_str(), ") and its metadata (");
                let message = joined(message.as_str(), metadata_id.text().as_str());
                joined(message.as_str(), ") are not matched")
            },
            Error::UpdateCatalog { source } => joined(
                "Error while insert parquet file and its corresponding processed tombstones in the catalog: ",
                source.as_str(),
            ),
            Error::RemoveBatch { source } => joined(
                "Error while removing a persisted batch from Data Buffer: ",
                source.as_str(),
            ),
        }
    }
}

/// The file and its tombstones are to be added to the catalog.
#[derive(Debug)]
pub struct InsertFile {
    /// The identifier of the batch and of the metadata.
    object_store_id: Uuid,
}

/// The batch is to be removed from memory, now that the catalog has the file and its tombstones.
#[derive(Debug)]
pub struct RemoveBatch<F, T> {
    /// The identifier of the batch.
    object_store_id: Uuid,
    parquet_file: F,
    processed_tombstones: Vec<T>,
}

/// What comes of updating the catalog, given what comes of adding the file and the tombstones to
/// it and of removing the batch.
pub open spec fn update_outcome<F, T>(
    persisting_batch_id: Uuid,
    metadata_id: Uuid,
    inserted: Result<(F, Vec<T>), String>,
    removed: Result<(), String>,
) -> Result<(F, Vec<T>), Error> {
    if persisting_batch_id != metadata_id {
        Err(Error::NoMatch { persisting_batch_id, metadata_id })
    } else {
        match (inserted, removed) {
            (Err(source), _) => Err(Error::UpdateCatalog { source }),
            (Ok(_), Err(source)) => Err(Error::RemoveBatch { source }),
            (Ok(updated), Ok(_)) => Ok(updated),
        }
    }
}

/// The first step: the file is to be added if the metadata is that of the batch.
pub open spec fn is_started(
    persisting_batch_id: Uuid,
    metadata_id: Uuid,
    result: Result<InsertFile, Error>,
) -> bool {
    match result {
        Ok(next) => persisting_batch_id == metadata_id && next.id() == metadata_id,
        Err(error) => {
            &&& persisting_batch_id != metadata_id
            &&& error == Error::NoMatch { persisting_batch_id, metadata_id }
        },
    }
}

/// The second step: the batch that the file is of is to be removed if the file and its tombstones
/// were added.
pub open spec fn is_inserted<F, T>(
    step: InsertFile,
    inserted: Result<(F, Vec<T>), String>,
    result: Result<RemoveBatch<F, T>, Error>,
) -> bool {
    match (inserted, result) {
        (Ok(updated), Ok(next)) => next.updated() == updated && next.id() == step.id(),
        (Err(e), Err(Error::UpdateCatalog { source })) => source == e,
        _ => false,
    }
}

/// The last step: the file and the tombstones that were added, if the batch was removed.
pub open spec fn is_removed<F, T>(
    step: RemoveBatch<F, T>,
    removed: Result<(), String>,
    result: Result<(F, Vec<T>), Error>,
) -> bool {
    match (removed, result) {
        (Ok(_), Ok(updated)) => updated == step.updated(),
        (Err(e), Err(Error::RemoveBatch { source })) => source == e,
        _ => false,
    }
}

/// Update the catalog: starts with adding the file to it, unless the metadata is that of another
/// batch.
pub fn update_catalog_after_persisting(persisting_batch_id: Uuid, metadata_id: Uuid) -> (result:
    Result<InsertFile, Error>)
    ensures
        is_started(persisting_batch_id, metadata_id, result),
        result is Ok <==> persisting_batch_id.value == metadata_id.value,
        result matches Ok(next) ==> {
            &&& next.id().value == persisting_batch_id.value
            &&& next.id().value == metadata_id.value
        },
        result matches Err(error) ==> error == (Error::NoMatch {
            persisting_batch_id,
            metadata_id,
        }),
{
    if persisting_batch_id != metadata_id {
        return Err(Error::NoMatch { persisting_batch_id, metadata_id });
    }
    Ok(InsertFile { object_store_id: metadata_id })
}

impl InsertFile {
    /// The identifier of the batch and of the metadata.
    pub closed spec fn id(&self) -> Uuid {
        self.object_store_id
    }

    /// The identifier of the file to be added.
    pub fn object_store_id(&self) -> (id: Uuid)
        ensures
            id == self.id(),
    {
        self.object_store_id
    }

    /// Goes on with removing the batch if the catalog has taken the file and its tombstones.
    pub fn inserted<F, T>(self, inserted: Result<(F, Vec<T>), String>) -> (result: Result<
        RemoveBatch<F, T>,
        Error,
    >)
        ensures
            is_inserted(self, inserted, result),
            match inserted {
                Ok((file, tombstones)) => result matches Ok(next) && {
                    &&& next.updated().0 == file
                    &&& next.updated().1 == tombstones
                    &&& next.id().value == self.id().value
                },
                Err(e) => result matches Err(Error::UpdateCatalog { source }) && source == e,
            },
    {
        match inserted {
            Ok((parquet_file, processed_tombstones)) => Ok(
                RemoveBatch {
                    object_store_id: self.object_store_id,
                    parquet_file,
                    processed_tombstones,
                },
            ),
            Err(source) => Err(Error::UpdateCatalog { source }),
        }
    }
}

impl<F, T> RemoveBatch<F, T> {
    /// The identifier of the batch.
    pub closed spec fn id(&self) -> Uuid {
        self.object_store_id
    }

    /// The file and the tombstones in the catalog.
    pub closed spec fn updated(&self) -> (F, Vec<T>) {
        (self.parquet_file, self.processed_tombstones)
    }

    /// The identifier of the batch to be removed.
    pub fn object_store_id(&self) -> (id: Uuid)
        ensures
            id == self.id(),
    {
        self.object_store_id
    }

    /// Ends with the file and the tombstones that were added if the batch was removed.
    pub fn removed(self, removed: Result<(), String>) -> (result: Result<(F, Vec<T>), Error>)
        ensures
            is_removed(self, removed, result),
            match removed {
                Ok(_) => result == Ok::<(F, Vec<T>), Error>(self.updated()),
                Err(e) => result matches Err(Error::RemoveBatch { source }) && source == e,
            },
    {
        match removed {
            Ok(_) => Ok((self.parquet_file, self.processed_tombstones)),
            Err(source) => Err(Error::RemoveBatch { source }),
        }
    }
}

/// The steps, taken one after another until one fails, come to what updating the catalog comes
/// to: nothing is added if the metadata is that of another batch, and the batch, no other, is
/// removed only once its file and the tombstones were added.
pub proof fn law_steps_update_the_catalog<F, T>(
    persisting_batch_id: Uuid,
    metadata_id: Uuid,
    inserted: Result<(F, Vec<T>), String>,
    removed: Result<(), String>,
    first: Result<InsertFile, Error>,
    second: Result<RemoveBatch<F, T>, Error>,
    third: Result<(F, Vec<T>), Error>,
)
    requires
        is_started(persisting_batch_id, metadata_id, first),
        first matches Ok(step) ==> is_inserted(step, inserted, second),
        first is Ok ==> (second matches Ok(step) ==> is_removed(step, removed, third)),
    ensures
        update_outcome(persisting_batch_id, metadata_id, inserted, removed) == match first {
            Err(error) => Err(error),
            Ok(_) => match second {
                Err(error) => Err(error),
                Ok(_) => third,
            },
        },
        first matches Ok(step) ==> step.id() == persisting_batch_id,
        first is Ok ==> (second matches Ok(step) ==> {
            &&& step.id() == persisting_batch_id
            &&& inserted == Ok::<(F, Vec<T>), String>(step.updated())
        }),
{
}

/// The catalog is touched if and only if the identifier of the metadata is the very one of the
/// batch, and then the file of that identifier is added and the batch of that identifier is
/// removed. Any other identifier, greater or smaller, is refused with both of them named.
pub proof fn law_only_the_batch_of_the_metadata(
    persisting_batch_id: Uuid,
    metadata_id: Uuid,
    first: Result<InsertFile, Error>,
)
    requires
        is_started(persisting_batch_id, metadata_id, first),
    ensures
        first is Ok <==> persisting_batch_id.value == metadata_id.value,
        first matches Ok(step) ==> step.id().value == persisting_batch_id.value,
        first matches Err(error) ==> {
            &&& error matches Error::NoMatch { persisting_batch_id: batch, metadata_id: other }
            &&& batch.value == persisting_batch_id.value
            &&& other.value == metadata_id.value
        },
{
}

/// With the identifiers of the batch and of the metadata changing places, the answer stays: one
/// is taken for the other in neither case, or in both.
pub proof fn law_identifiers_match_both_ways(
    a: Uuid,
    b: Uuid,
    first: Result<InsertFile, Error>,
    swapped: Result<InsertFile, Error>,
)
    requires
        is_started(a, b, first),
        is_started(b, a, swapped),
    ensures
        first is Ok <==> swapped is Ok,
        first is Ok ==> a.value == b.value,
{
}

/// What each step makes of what was done for it: the file and its tombstones go on as they were
/// added, and are given back once the batch is gone; what went wrong is handed on word for word.
pub proof fn law_steps_hand_on_what_was_done<F, T>(
    step: InsertFile,
    inserted: Result<(F, Vec<T>), String>,
    second: Result<RemoveBatch<F, T>, Error>,
    removed: Result<(), String>,
    third: Result<(F, Vec<T>), Error>,
)
    requires
        is_inserted(step, inserted, second),
        second matches Ok(next) ==> is_removed(next, removed, third),
    ensures
        second is Ok <==> inserted is Ok,
        inserted matches Err(e) ==> (second matches Err(Error::UpdateCatalog { source }) && source
            == e),
        second matches Ok(next) ==> {
            &&& next.id().value == step.id().value
            &&& third is Ok <==> removed is Ok
            &&& removed is Ok ==> third->Ok_0 == inserted->Ok_0
            &&& removed matches Err(e) ==> (third matches Err(Error::RemoveBatch { source })
                && source == e)
        },
{
}

} // verus!
