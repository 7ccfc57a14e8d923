use lakehouse::input::{csv_to_batch, CsvError};

#[test]
fn csv_rows_become_one_batch() {
    let batch = csv_to_batch(b"id,value\n1,a\n2,b\n3,c\n").expect("csv_to_batch");
    assert_eq!(batch.batch.num_rows(), 3);
    assert_eq!(batch.batch.num_columns(), 2);
    let schema = batch.batch.schema();
    assert_eq!(schema.field(0).name(), "id");
    assert_eq!(schema.field(1).name(), "value");
}

#[test]
fn csv_with_many_rows_joins_all_batches() {
    let mut text = String::from("id,value\n");
    for i in 0..2500 {
        text.push_str(&format!("{i},v{i}\n"));
    }
    let batch = csv_to_batch(text.as_bytes()).expect("csv_to_batch");
    assert_eq!(batch.batch.num_rows(), 2500);
}

#[test]
fn csv_without_rows_is_refused() {
    assert!(matches!(csv_to_batch(b"id,value\n"), Err(CsvError::NoRecordBatches)));
}

#[test]
fn csv_with_ragged_rows_is_refused() {
    assert!(matches!(
        csv_to_batch(b"id,value\n1,a\n2\n"),
        Err(CsvError::Schema(_)) | Err(CsvError::Read(_))
    ));
}
