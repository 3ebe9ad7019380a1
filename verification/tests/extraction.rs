use batch_export::Column;
use batch_export::ColumnSchema;
use batch_export::Emitter;
use batch_export::ExtractError;
use batch_export::FetchLoop;
use batch_export::FetchState;
use batch_export::Record;
use batch_export::RowBatchBuffer;
use batch_export::build_schema;
use batch_export::header_record;
use batch_export::no_result_set_notice;
use batch_export::record_from_row;

fn id_name_schema() -> ColumnSchema {
    ColumnSchema {
        cols: vec![
            Column { name: b"id".to_vec(), max_width: 10 },
            Column { name: b"name".to_vec(), max_width: 32 },
        ],
    }
}

fn three_col_schema() -> ColumnSchema {
    ColumnSchema {
        cols: vec![
            Column { name: b"a".to_vec(), max_width: 16 },
            Column { name: b"b".to_vec(), max_width: 16 },
            Column { name: b"c".to_vec(), max_width: 16 },
        ],
    }
}

#[test]
fn scenario_one_row() {
    let schema = id_name_schema();
    let mut buf = RowBatchBuffer::new(&schema, 5, Some(4096)).unwrap();
    buf.fill_cell(0, 0, b"1");
    buf.fill_cell(0, 1, b"Ada");
    let mut emitter = Emitter::new(&schema);
    let rec = record_from_row(&buf, 0);
    emitter.emit_row(&rec);
    assert_eq!(emitter.as_bytes().as_slice(), b"id,name\n1,Ada\n");
}

#[test]
fn scenario_zero_rows_header_only() {
    let schema = id_name_schema();
    let emitter = Emitter::new(&schema);
    assert_eq!(emitter.as_bytes().as_slice(), b"id,name\n");
}

#[test]
fn scenario_no_result_set_notice() {
    assert_eq!(
        no_result_set_notice(),
        "Query came back empty. No output has been created."
    );
}

#[test]
fn scenario_absent_middle_cell() {
    let schema = three_col_schema();
    let mut buf = RowBatchBuffer::new(&schema, 2, None).unwrap();
    buf.fill_cell(0, 0, b"field0");
    buf.fill_cell(0, 2, b"field2");
    let rec = record_from_row(&buf, 0);
    assert_eq!(rec.fields.len(), 3);
    assert_eq!(rec.fields[0], b"field0".to_vec());
    assert_eq!(rec.fields[1], Vec::<u8>::new());
    assert_eq!(rec.fields[2], b"field2".to_vec());
    let mut emitter = Emitter::new(&schema);
    emitter.emit_row(&rec);
    assert_eq!(emitter.as_bytes().as_slice(), b"a,b,c\nfield0,,field2\n");
}

#[test]
fn absent_cell_after_overwrite() {
    let schema = id_name_schema();
    let mut buf = RowBatchBuffer::new(&schema, 3, None).unwrap();
    buf.fill_cell(2, 1, b"gone");
    buf.mark_absent(2, 1);
    assert_eq!(buf.cell(2, 1), None);
    let rec = record_from_row(&buf, 2);
    assert_eq!(rec.fields[1], Vec::<u8>::new());
}

#[test]
fn round_trip_full_row() {
    let schema = three_col_schema();
    let mut buf = RowBatchBuffer::new(&schema, 4, Some(4096)).unwrap();
    buf.fill_cell(3, 0, b"x");
    buf.fill_cell(3, 1, b"");
    buf.fill_cell(3, 2, b"zzz");
    let rec = record_from_row(&buf, 3);
    assert_eq!(rec.fields[0], b"x".to_vec());
    assert_eq!(rec.fields[1], Vec::<u8>::new());
    assert_eq!(rec.fields[2], b"zzz".to_vec());
}

#[test]
fn cell_overwrite_in_place() {
    let schema = id_name_schema();
    let mut buf = RowBatchBuffer::new(&schema, 2, None).unwrap();
    buf.fill_cell(0, 0, b"aa");
    assert_eq!(buf.cell(0, 0), Some(b"aa".to_vec()));
    buf.fill_cell(0, 0, b"b");
    assert_eq!(buf.cell(0, 0), Some(b"b".to_vec()));
    assert_eq!(buf.cell(1, 0), None);
}

#[test]
fn width_cap_bounds_cells() {
    let schema = ColumnSchema { cols: vec![Column { name: b"t".to_vec(), max_width: 4096 }] };
    let buf = RowBatchBuffer::new(&schema, 2, Some(8)).unwrap();
    assert_eq!(buf.num_cols(), 1);
    assert_eq!(buf.batch_capacity(), 2);
}

#[test]
fn allocation_overflow_is_reported() {
    let schema = ColumnSchema { cols: vec![Column { name: b"t".to_vec(), max_width: usize::MAX }] };
    let r = RowBatchBuffer::new(&schema, 2, None);
    assert_eq!(r.err(), Some(ExtractError::Allocation));
}

#[test]
fn schema_probe_rejects_mismatched_metadata() {
    let names = vec![b"a".to_vec(), b"b".to_vec()];
    let widths = vec![4usize];
    let r = build_schema(names, &widths);
    assert_eq!(r.err(), Some(ExtractError::Schema));
}

#[test]
fn schema_probe_idempotent() {
    let names = vec![b"a".to_vec(), b"b".to_vec()];
    let widths = vec![4usize, 9usize];
    let s1 = build_schema(names.clone(), &widths).unwrap();
    let s2 = build_schema(names, &widths).unwrap();
    assert_eq!(s1.cols.len(), s2.cols.len());
    for (c1, c2) in s1.cols.iter().zip(s2.cols.iter()) {
        assert_eq!(c1.name, c2.name);
        assert_eq!(c1.max_width, c2.max_width);
    }
}

#[test]
fn header_record_lists_names_in_order() {
    let schema = three_col_schema();
    let rec = header_record(&schema);
    assert_eq!(rec.fields, vec![b"a".to_vec(), b"b".to_vec(), b"c".to_vec()]);
}

#[test]
fn fetch_loop_exhaustion_after_short_batch() {
    let schema = id_name_schema();
    let buf = RowBatchBuffer::new(&schema, 5, None).unwrap();
    let mut lp = FetchLoop::bind(&buf);
    assert_eq!(lp.state(), FetchState::Bound);
    assert!(lp.wants_fetch());

    let rows = lp.record_fetch(Some(5));
    assert_eq!(rows, 5);
    assert_eq!(lp.state(), FetchState::Fetched);
    assert!(lp.wants_fetch());

    let rows = lp.record_fetch(Some(2));
    assert_eq!(rows, 2);
    assert_eq!(lp.state(), FetchState::Fetched);
    assert!(!lp.wants_fetch());

    let rows = lp.record_fetch(Some(5));
    assert_eq!(rows, 0);
    assert_eq!(lp.state(), FetchState::Exhausted);

    let rows = lp.record_fetch(None);
    assert_eq!(rows, 0);
    assert_eq!(lp.state(), FetchState::Exhausted);
    assert!(!lp.wants_fetch());
}

#[test]
fn fetch_loop_end_of_data_signal() {
    let schema = id_name_schema();
    let buf = RowBatchBuffer::new(&schema, 5, None).unwrap();
    let mut lp = FetchLoop::bind(&buf);
    let rows = lp.record_fetch(None);
    assert_eq!(rows, 0);
    assert_eq!(lp.state(), FetchState::Exhausted);
    assert!(!lp.wants_fetch());
}

#[test]
fn fetch_loop_empty_batch_exhausts() {
    let schema = id_name_schema();
    let buf = RowBatchBuffer::new(&schema, 5, None).unwrap();
    let mut lp = FetchLoop::bind(&buf);
    let rows = lp.record_fetch(Some(0));
    assert_eq!(rows, 0);
    assert_eq!(lp.state(), FetchState::Exhausted);
}

#[test]
fn sink_framing_quotes_delimiters() {
    let schema = id_name_schema();
    let mut emitter = Emitter::new(&schema);
    let rec = Record { fields: vec![b"a,b".to_vec(), b"c".to_vec()] };
    emitter.emit_row(&rec);
    assert_eq!(emitter.as_bytes().as_slice(), b"id,name\n\"a,b\",c\n");
}

#[test]
fn rows_emitted_in_order() {
    let schema = id_name_schema();
    let mut buf = RowBatchBuffer::new(&schema, 3, None).unwrap();
    buf.fill_cell(0, 0, b"1");
    buf.fill_cell(0, 1, b"one");
    buf.fill_cell(1, 0, b"2");
    buf.fill_cell(1, 1, b"two");
    let mut emitter = Emitter::new(&schema);
    for row in 0..2usize {
        let rec = record_from_row(&buf, row);
        emitter.emit_row(&rec);
    }
    assert_eq!(emitter.as_bytes().as_slice(), b"id,name\n1,one\n2,two\n");
}

#[test]
fn batches_emitted_in_order() {
    let schema = id_name_schema();
    let mut buf = RowBatchBuffer::new(&schema, 2, None).unwrap();
    let mut emitter = Emitter::new(&schema);
    // first batch fills the buffer
    buf.fill_cell(0, 0, b"1");
    buf.fill_cell(0, 1, b"one");
    buf.fill_cell(1, 0, b"2");
    buf.fill_cell(1, 1, b"two");
    emitter.emit_batch(&buf, 2);
    // the next fetch overwrites the same buffer in place
    buf.fill_cell(0, 0, b"3");
    buf.mark_absent(0, 1);
    emitter.emit_batch(&buf, 1);
    assert_eq!(
        emitter.as_bytes().as_slice(),
        b"id,name\n1,one\n2,two\n3,\n"
    );
}

#[test]
fn error_descriptions_are_stable() {
    assert_eq!(ExtractError::Schema.describe(), "column metadata unavailable");
    assert_eq!(ExtractError::Allocation.describe(), "row buffer sizing impossible");
    assert_eq!(ExtractError::Fetch.describe(), "data source failed while fetching");
    assert_eq!(
        ExtractError::Serialization.describe(),
        "output sink write failed"
    );
}
