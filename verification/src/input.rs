//! Loading CSV input into a single Arrow record batch: the schema is inferred
//! from the first 100 rows, the rows are read in batches, and the batches are
//! joined into one.

use std::sync::Arc;
use vstd::prelude::*;

verus! {

/// A record batch of arrow, held opaquely: Verus refuses a declaration of
/// arrow's `RecordBatch` itself (its `Index` impl returns a trait object), so
/// the batch is held in this struct, whose contents Verus does not see.
#[verifier::external_body]
pub struct CsvBatch {
    pub batch: arrow::record_batch::RecordBatch,
}

/// Arrow's schema, carried through as an opaque value.
#[verifier::external_type_specification]
#[verifier::external_body]
pub struct ExSchema(arrow::datatypes::Schema);

/// Why CSV input could not be loaded; each carries arrow's message where arrow refused.
#[derive(Debug)]
pub enum CsvError {
    /// No schema could be inferred from the first 100 rows.
    Schema(String),
    /// The rows could not be read with the inferred schema.
    Read(String),
    /// The input holds no data row after its header.
    NoRecordBatches,
    /// The batches could not be joined into one.
    Concat(String),
}

/// Whether arrow infers a schema from `csv` (with a header row, looking at
/// up to 100 rows).
pub uninterp spec fn csv_schema_inferable(csv: Seq<u8>) -> bool;

/// The number of record batches that arrow's CSV reader (header row, 1024
/// rows per batch) yields for `csv` when it reads it without error: one per
/// 1024 data rows after the header, rounded up, so none exactly when there is
/// no data row.
pub uninterp spec fn csv_batch_count(csv: Seq<u8>) -> nat;

/// Infers the schema of `csv` with arrow's
/// `Format::default().with_header(true).infer_schema(.., Some(100))`;
/// `Ok` exactly where arrow infers one. The schema itself is opaque.
#[verifier::external_body]
fn infer_csv_schema(csv: &[u8]) -> (r: Result<Arc<arrow::datatypes::Schema>, String>)
    ensures
        r is Ok <==> csv_schema_inferable(csv@),
{
    let format = arrow::csv::reader::Format::default().with_header(true);
    match format.infer_schema(std::io::Cursor::new(csv), Some(100)) {
        Ok((schema, _)) => Ok(Arc::new(schema)),
        Err(e) => Err(e.to_string()),
    }
}

/// Reads the rows of `csv` with arrow's CSV reader for `schema` (header row,
/// the default 1024 rows per batch) and collects its batches. Where it
/// succeeds, the number of batches is `csv_batch_count(csv)`, which does not
/// depend on the schema; whether it succeeds does (each row must have as many
/// fields as the schema), and that is not stated.
#[verifier::external_body]
fn read_csv_batches(
    csv: &[u8],
    schema: Arc<arrow::datatypes::Schema>,
) -> (r: Result<Vec<CsvBatch>, String>)
    ensures
        r is Ok ==> r->Ok_0@.len() == csv_batch_count(csv@),
{
    let reader = arrow::csv::ReaderBuilder::new(schema).with_header(true).build(std::io::Cursor::new(csv));
    match reader {
        Ok(reader) => match reader.collect::<Result<Vec<_>, _>>() {
            Ok(batches) => Ok(batches.into_iter().map(|batch| CsvBatch { batch }).collect()),
            Err(e) => Err(e.to_string()),
        },
        Err(e) => Err(e.to_string()),
    }
}

/// Joins `batches`, all of `schema`, into one batch with arrow's
/// `concat_batches`. The joined batch is opaque, so nothing is stated of it.
#[verifier::external_body]
fn concat_csv_batches(
    schema: &Arc<arrow::datatypes::Schema>,
    batches: &Vec<CsvBatch>,
) -> Result<CsvBatch, String> {
    match arrow::compute::concat_batches(schema, batches.iter().map(|b| &b.batch)) {
        Ok(batch) => Ok(CsvBatch { batch }),
        Err(e) => Err(e.to_string()),
    }
}

/// Loads the CSV text `csv` into one record batch: infers its schema from
/// the first 100 rows, reads all rows with that schema, refuses input with no
/// data row, and joins the batches read.
pub fn csv_to_batch(csv: &[u8]) -> (r: Result<CsvBatch, CsvError>)
    ensures
        !csv_schema_inferable(csv@) ==> r matches Err(CsvError::Schema(_)),
        r matches Err(CsvError::Schema(_)) ==> !csv_schema_inferable(csv@),
        r matches Err(CsvError::Read(_)) ==> csv_schema_inferable(csv@),
        r matches Err(CsvError::NoRecordBatches) ==> csv_schema_inferable(csv@)
            && csv_batch_count(csv@) == 0,
        r is Ok ==> csv_schema_inferable(csv@) && csv_batch_count(csv@) > 0,
        r matches Err(CsvError::Concat(_)) ==> csv_batch_count(csv@) > 0,
{
    let schema = match infer_csv_schema(csv) {
        Ok(s) => s,
        Err(msg) => return Err(CsvError::Schema(msg)),
    };
    let batches = match read_csv_batches(csv, schema.clone()) {
        Ok(b) => b,
        Err(msg) => return Err(CsvError::Read(msg)),
    };
    if batches.len() == 0 {
        return Err(CsvError::NoRecordBatches);
    }
    match concat_csv_batches(&schema, &batches) {
        Ok(batch) => Ok(batch),
        Err(msg) => Err(CsvError::Concat(msg)),
    }
}

} // verus!
