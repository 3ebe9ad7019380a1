//! Owned textual records, one per output row. A record copies its fields out
//! of the batch buffer eagerly, so it stays valid after the next fetch
//! overwrites the buffer.

use vstd::prelude::*;
use crate::buffer::RowBatchBuffer;
use crate::schema::ColumnSchema;

verus! {

/// One textual record: an ordered sequence of owned text fields.
pub struct Record {
    pub fields: Vec<Vec<u8>>,
}

impl View for Record {
    type V = Seq<Seq<u8>>;

    open spec fn view(&self) -> Seq<Seq<u8>> {
        self.fields.deep_view()
    }
}

/// The field one cell serializes to: its bytes when present, the empty field
/// when absent. An absent cell never becomes a null token and is never
/// omitted.
pub open spec fn spec_field_of(cell: Option<Seq<u8>>) -> Seq<u8> {
    match cell {
        Some(b) => b,
        None => Seq::empty(),
    }
}

/// The record one row serializes to: one field per column, in column order.
pub open spec fn spec_record_of(cells: Seq<Option<Seq<u8>>>) -> Seq<Seq<u8>> {
    cells.map(|_i: int, c: Option<Seq<u8>>| spec_field_of(c))
}

fn copy_bytes(src: &Vec<u8>) -> (out: Vec<u8>)
    ensures
        out@ == src@,
{
    let n = src.len();
    let mut out: Vec<u8> = Vec::new();
    let mut k: usize = 0;
    while k < n
        invariant
            k <= n,
            n == src@.len(),
            out@ == src@.take(k as int),
        decreases n - k,
    {
        out.push(src[k]);
        proof {
            assert(out@ =~= src@.take(k as int + 1));
        }
        k += 1;
    }
    proof {
        assert(src@.take(n as int) =~= src@);
    }
    out
}

/// Builds the data record for row `row` of the buffer: one field per column,
/// so the field count equals the schema's column count however many cells are
/// absent. A present cell contributes exactly its bytes; an absent cell
/// contributes an empty field in its column's position.
pub fn record_from_row(buf: &RowBatchBuffer, row: usize) -> (rec: Record)
    requires
        buf.wf(),
        row < buf.batch_cap(),
    ensures
        rec@ == spec_record_of(buf.row_cells(row as int)),
        rec@.len() == buf.col_count(),
{
    let ncols = buf.num_cols();
    let mut fields: Vec<Vec<u8>> = Vec::new();
    let mut c: usize = 0;
    while c < ncols
        invariant
            c <= ncols,
            buf.wf(),
            row < buf.batch_cap(),
            ncols == buf.col_count(),
            fields@.len() == c,
            forall|j: int|
                0 <= j < c ==> (#[trigger] fields@[j])@ == spec_field_of(
                    buf.cell_spec(row as int, j),
                ),
        decreases ncols - c,
    {
        match buf.cell(row, c) {
            Some(b) => {
                fields.push(b);
            },
            None => {
                let empty: Vec<u8> = Vec::new();
                fields.push(empty);
            },
        }
        c += 1;
    }
    let rec = Record { fields };
    proof {
        assert forall|j: int| 0 <= j < ncols implies rec@[j] == spec_record_of(
            buf.row_cells(row as int),
        )[j] by {
            assert(rec@[j] =~= rec.fields@[j]@);
            assert(buf.row_cells(row as int)[j] == buf.cell_spec(row as int, j));
        }
        assert(rec@ =~= spec_record_of(buf.row_cells(row as int)));
    }
    rec
}

/// Builds the header record: the column names, in schema order.
pub fn header_record(schema: &ColumnSchema) -> (rec: Record)
    ensures
        rec@ == schema.names(),
        rec@.len() == schema.col_count(),
{
    let ncols = schema.num_cols();
    let mut fields: Vec<Vec<u8>> = Vec::new();
    let mut c: usize = 0;
    while c < ncols
        invariant
            c <= ncols,
            ncols == schema.col_count(),
            fields@.len() == c,
            forall|j: int| 0 <= j < c ==> (#[trigger] fields@[j])@ == schema.names()[j],
        decreases ncols - c,
    {
        let name = copy_bytes(&schema.cols[c].name);
        fields.push(name);
        proof {
            assert(schema.model()[c as int] == (
                schema.cols@[c as int].name@,
                schema.cols@[c as int].max_width,
            ));
            assert(schema.names()[c as int] == schema.model()[c as int].0);
        }
        c += 1;
    }
    let rec = Record { fields };
    proof {
        assert forall|j: int| 0 <= j < ncols implies rec@[j] == schema.names()[j] by {
            assert(rec@[j] =~= rec.fields@[j]@);
        }
        assert(rec@ =~= schema.names());
    }
    rec
}

/// Round trip: the record built from a row with no absent cells recovers
/// exactly the cell bytes the source supplied, field for field, in column
/// order.
pub proof fn lemma_record_round_trip(cells: Seq<Option<Seq<u8>>>)
    requires
        forall|i: int| 0 <= i < cells.len() ==> (#[trigger] cells[i]) is Some,
    ensures
        spec_record_of(cells).len() == cells.len(),
        forall|i: int| 0 <= i < cells.len() ==> cells[i] == Some(#[trigger] spec_record_of(cells)[i]),
{
}

/// Absent-cell law: a cell marked absent by the source serializes to an empty
/// field in its own column position; the record still has one field per
/// column, so the column is never omitted.
pub proof fn lemma_absent_cell_empty_field(cells: Seq<Option<Seq<u8>>>, i: int)
    requires
        0 <= i < cells.len(),
        cells[i] is None,
    ensures
        spec_record_of(cells).len() == cells.len(),
        spec_record_of(cells)[i] == Seq::<u8>::empty(),
{
}

} // verus!
