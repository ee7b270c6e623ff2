//! The stages before training, run in order, and what holds across them.

use crate::data::{
    explore_data, kept_records, lemma_record_position, lemma_rows_accounted, parsed_count,
    process_csv, skipped_count, DataStats, FileOutcome, IngestError, RowOutcome,
};
use crate::features::{
    build_dataset, feature_row, feature_rows, label_of, labels_of, TrainingSet,
};
use crate::model::{cleaned, CleanHouseRecord};
use vstd::prelude::*;

verus! {

/// Everything that is known of a source before a model is trained on it.
#[derive(Debug)]
pub struct Prepared {
    /// The clean records, in row order.
    pub records: Vec<CleanHouseRecord>,
    /// The number of malformed rows that were passed over.
    pub skipped: usize,
    /// The price figures, unless there is no record.
    pub stats: Option<DataStats>,
    /// One feature row and one label per record.
    pub training: TrainingSet,
}

/// The feature matrix has one row of five cells for each well-formed row of
/// the source, and the label vector one label for each.
pub proof fn lemma_dataset_shape(rows: Seq<RowOutcome>, threshold: u64)
    ensures
        feature_rows(kept_records(rows)).len() == parsed_count(rows),
        labels_of(kept_records(rows), threshold).len() == parsed_count(rows),
        forall|k: int|
            0 <= k < parsed_count(rows) ==> (#[trigger] feature_rows(kept_records(rows))[k]).len()
                == 5,
{
    lemma_rows_accounted(rows);
}

/// The feature row and the label of a well-formed row stand at the index
/// that equals the number of well-formed rows before it: malformed rows
/// leave no gap and move nothing.
pub proof fn lemma_dataset_position(rows: Seq<RowOutcome>, threshold: u64, i: int)
    requires
        0 <= i < rows.len(),
        rows[i] is Parsed,
    ensures
        parsed_count(rows.take(i)) < parsed_count(rows),
        feature_rows(kept_records(rows))[parsed_count(rows.take(i)) as int] == feature_row(
            cleaned(rows[i]->Parsed_0),
        ),
        labels_of(kept_records(rows), threshold)[parsed_count(rows.take(i)) as int] == label_of(
            rows[i]->Parsed_0.price,
            threshold,
        ),
{
    lemma_rows_accounted(rows);
    lemma_record_position(rows, i);
}

/// Ingests a source, takes its price figures and assembles the training
/// set. Only a source that could not be opened stops it.
pub fn prepare(file: FileOutcome, threshold: u64) -> (out: Result<Prepared, IngestError>)
    ensures
        file is Unreadable ==> out == Err::<Prepared, IngestError>(IngestError::FileAccess),
        file matches FileOutcome::Rows(rows) ==> {
            &&& out matches Ok(p)
            &&& p.records@ == kept_records(rows@)
            &&& p.skipped == skipped_count(rows@)
            &&& p.records.len() + p.skipped == rows.len()
            &&& p.stats is None <==> parsed_count(rows@) == 0
            &&& p.stats matches Some(s) ==> s.describes(kept_records(rows@))
            &&& p.training.features@ == feature_rows(kept_records(rows@))
            &&& p.training.labels@ == labels_of(kept_records(rows@), threshold)
        },
{
    let ghost source = file;
    match process_csv(file) {
        Err(e) => Err(e),
        Ok(ingestion) => {
            proof {
                lemma_rows_accounted(source->Rows_0@);
            }
            let stats = explore_data(ingestion.records.as_slice());
            let training = build_dataset(ingestion.records.as_slice(), threshold);
            Ok(Prepared { records: ingestion.records, skipped: ingestion.skipped, stats, training })
        },
    }
}

} // verus!
