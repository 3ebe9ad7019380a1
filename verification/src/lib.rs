//! Batched extraction of rows from a cursor-based tabular source into
//! delimited text records: column schema, a reusable fixed-capacity text
//! buffer, a fetch-loop state machine, and per-row record serialization.

mod buffer;
mod emit;
mod errors;
mod fetch;
mod record;
mod schema;

pub use buffer::RowBatchBuffer;
pub use buffer::spec_cell_width;
pub use buffer::spec_store_bytes;
pub use emit::Emitter;
pub use emit::csv_line_of;
pub use emit::lemma_stream_shape;
pub use emit::no_result_set_notice;
pub use emit::spec_stream_bytes;
pub use errors::ExtractError;
pub use fetch::FetchLoop;
pub use fetch::FetchState;
pub use fetch::lemma_exhaustion;
pub use fetch::lemma_short_fetch_ends;
pub use fetch::spec_run;
pub use fetch::spec_step;
pub use fetch::spec_step_rows;
pub use record::Record;
pub use record::header_record;
pub use record::lemma_absent_cell_empty_field;
pub use record::lemma_record_round_trip;
pub use record::record_from_row;
pub use record::spec_field_of;
pub use record::spec_record_of;
pub use schema::Column;
pub use schema::ColumnSchema;
pub use schema::build_schema;
pub use schema::lemma_schema_probe_idempotent;
pub use schema::schema_model;
