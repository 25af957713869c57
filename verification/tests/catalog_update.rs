use iox_core::catalog_update::{Error, update_catalog_after_persisting};
use iox_core::object_id::Uuid;

const ID: Uuid = Uuid { value: 0x00112233_44556677_8899aabb_ccddeeff };
const OTHER: Uuid = Uuid { value: 1 };

/// A catalog of files and of the tombstones processed with them, and a buffer with a batch.
#[derive(Default)]
struct Ingester {
    parquet_files: Vec<Uuid>,
    processed_tombstones: Vec<(usize, i64)>,
    persisting: Option<Uuid>,
}

impl Ingester {
    fn insert(&mut self, id: Uuid, tombstones: &[i64]) -> (usize, Vec<(usize, i64)>) {
        self.parquet_files.push(id);
        let file = self.parquet_files.len();
        let processed: Vec<_> = tombstones.iter().map(|t| (file, *t)).collect();
        self.processed_tombstones.extend(processed.clone());
        (file, processed)
    }

    fn update(
        &mut self,
        batch: Uuid,
        metadata: Uuid,
        tombstones: &[i64],
    ) -> Result<(usize, Vec<(usize, i64)>), Error> {
        let step = update_catalog_after_persisting(batch, metadata)?;
        let inserted = self.insert(step.object_store_id(), tombstones);
        let step = step.inserted(Ok(inserted))?;
        if self.persisting == Some(step.object_store_id()) {
            self.persisting = None;
        }
        step.removed(Ok(()))
    }
}

#[test]
fn test_update_batch_removed() {
    let mut ingester = Ingester { persisting: Some(ID), ..Default::default() };

    // Update the catalog and remove the batch from the buffer
    let (parquet_file, processed_tombstones) = ingester.update(ID, ID, &[5, 6]).unwrap();

    // verify the parquet file is actually in the catalog
    assert_eq!(ingester.parquet_files[parquet_file - 1], ID);

    // verify the processed tombstones are actually in the catalog
    assert_eq!(processed_tombstones.len(), 2);
    for processed in processed_tombstones {
        assert_eq!(processed.0, parquet_file);
        assert!(ingester.processed_tombstones.contains(&processed));
    }

    // Verify the persisting batch is already removed
    assert!(ingester.persisting.is_none());
}

#[test]
fn test_update_nothing_removed() {
    let mut ingester = Ingester { persisting: Some(ID), ..Default::default() };

    // Get counts before updating
    let before_pf_count = ingester.parquet_files.len();
    let before_pt_count = ingester.processed_tombstones.len();

    // The metadata is not that of this batch
    let err = ingester.update(OTHER, ID, &[5, 6]).unwrap_err();
    assert!(err.message().contains("The Object Store ID of the Persisting Batch"));

    // Verify the persisting batch is still there
    assert!(ingester.persisting.is_some());

    // Verify that the catalog's parquet_files and tombstones are unchanged
    assert_eq!(before_pf_count, ingester.parquet_files.len());
    assert_eq!(before_pt_count, ingester.processed_tombstones.len());
}

#[test]
fn catalog_update_messages() {
    let err = update_catalog_after_persisting(OTHER, ID).unwrap_err();
    assert_eq!(err, Error::NoMatch { persisting_batch_id: OTHER, metadata_id: ID });
    assert_eq!(
        err.message(),
        "The Object Store ID of the Persisting Batch (00000000-0000-0000-0000-000000000001) and \
         its metadata (00112233-4455-6677-8899-aabbccddeeff) are not matched",
    );

    let step = update_catalog_after_persisting(ID, ID).unwrap();
    let err = step.inserted::<usize, i64>(Err("down".to_owned())).unwrap_err();
    assert_eq!(err, Error::UpdateCatalog { source: "down".to_owned() });
    assert_eq!(
        err.message(),
        "Error while insert parquet file and its corresponding processed tombstones in the \
         catalog: down",
    );

    let step = update_catalog_after_persisting(ID, ID).unwrap();
    let step = step.inserted::<usize, i64>(Ok((1, vec![2]))).unwrap();
    assert_eq!(step.object_store_id(), ID);
    let err = step.removed(Err("no such batch".to_owned())).unwrap_err();
    assert_eq!(err, Error::RemoveBatch { source: "no such batch".to_owned() });
    assert_eq!(
        err.message(),
        "Error while removing a persisted batch from Data Buffer: no such batch",
    );
}
