//! Serialization of records to the delimited-text sink format, and the output
//! stream of one query execution: one header record first, then the data
//! records in the order they were produced.

use vstd::prelude::*;
use crate::buffer::RowBatchBuffer;
use crate::record::Record;
use crate::record::header_record;
use crate::record::record_from_row;
use crate::record::spec_record_of;
use crate::schema::ColumnSchema;

verus! {

/// The sink's delimited-text framing of one record — delimiters, quoting and
/// the record terminator applied to the fields. A function of the fields
/// alone.
pub uninterp spec fn csv_line_of(fields: Seq<Seq<u8>>) -> Seq<u8>;

/// Relies on csv::Writer::from_writer, csv::Writer::write_record and
/// csv::Writer::into_inner: a fresh writer over an in-memory buffer frames
/// exactly the one record written to it, and the framing depends on the
/// record's fields alone. Writes to an in-memory buffer cannot fail.
#[verifier::external_body]
fn encode_record(fields: &Vec<Vec<u8>>) -> (r: Vec<u8>)
    ensures
        r@ == csv_line_of(fields.deep_view()),
{
    let mut w = csv::Writer::from_writer(Vec::new());
    w.write_record(fields).expect("an in-memory write cannot fail");
    w.into_inner().expect("flushing an in-memory buffer cannot fail")
}

/// The concatenated framings of a sequence of records: the bytes a sink
/// receives for that record stream.
pub open spec fn spec_stream_bytes(records: Seq<Seq<Seq<u8>>>) -> Seq<u8>
    decreases records.len(),
{
    if records.len() == 0 {
        Seq::empty()
    } else {
        spec_stream_bytes(records.drop_last()) + csv_line_of(records.last())
    }
}

/// The output stream of one query execution. Constructing it emits the header
/// record — the column names, in schema order — exactly once; each
/// `emit_row` call then appends exactly one data record. The transcript
/// records, in order, every record emitted so far.
pub struct Emitter {
    out: Vec<u8>,
    ncols: usize,
    header: Ghost<Seq<Seq<u8>>>,
    records: Ghost<Seq<Seq<Seq<u8>>>>,
}

impl Emitter {
    /// Every record emitted so far, header first, in emission order.
    pub closed spec fn transcript(&self) -> Seq<Seq<Seq<u8>>> {
        self.records@
    }

    /// The header record: the column names of the schema this stream serves.
    pub closed spec fn header(&self) -> Seq<Seq<u8>> {
        self.header@
    }

    /// The column count every emitted record must match.
    pub closed spec fn col_count(&self) -> nat {
        self.ncols as nat
    }

    /// The bytes handed to the sink so far.
    pub closed spec fn bytes(&self) -> Seq<u8> {
        self.out@
    }

    /// Stream invariant: the header stands first in the transcript, every
    /// record has one field per column, and the bytes are exactly the
    /// transcript's framing.
    pub closed spec fn wf(&self) -> bool {
        &&& self.records@.len() >= 1
        &&& self.records@[0] == self.header@
        &&& self.header@.len() == self.ncols
        &&& forall|i: int|
            0 <= i < self.records@.len() ==> (#[trigger] self.records@[i]).len() == self.ncols
        &&& self.out@ == spec_stream_bytes(self.records@)
    }

    /// Opens the stream for one query execution: builds the header record
    /// from the schema and emits it, before any data record.
    pub fn new(schema: &ColumnSchema) -> (e: Emitter)
        ensures
            e.wf(),
            e.header() == schema.names(),
            e.col_count() == schema.col_count(),
            e.transcript() == seq![schema.names()],
            e.bytes() == csv_line_of(schema.names()),
    {
        let head = header_record(schema);
        let out = encode_record(&head.fields);
        let ghost t: Seq<Seq<Seq<u8>>> = seq![schema.names()];
        let e = Emitter {
            out,
            ncols: schema.num_cols(),
            header: Ghost(schema.names()),
            records: Ghost(t),
        };
        proof {
            assert(t.drop_last() =~= Seq::<Seq<Seq<u8>>>::empty());
            assert(spec_stream_bytes(Seq::<Seq<Seq<u8>>>::empty()) == Seq::<u8>::empty());
            assert(t.last() == schema.names());
            assert(spec_stream_bytes(t) == Seq::<u8>::empty() + csv_line_of(schema.names()));
            assert(Seq::<u8>::empty() + csv_line_of(schema.names()) =~= csv_line_of(
                schema.names(),
            ));
        }
        e
    }

    /// Appends one data record to the stream: exactly one sink write, after
    /// the header, in call order.
    pub fn emit_row(&mut self, rec: &Record)
        requires
            old(self).wf(),
            rec@.len() == old(self).col_count(),
        ensures
            final(self).wf(),
            final(self).header() == old(self).header(),
            final(self).col_count() == old(self).col_count(),
            final(self).transcript() == old(self).transcript().push(rec@),
            final(self).bytes() == old(self).bytes() + csv_line_of(rec@),
    {
        let ghost pre_out = self.out@;
        let line = encode_record(&rec.fields);
        let n = line.len();
        let mut k: usize = 0;
        while k < n
            invariant
                k <= n,
                n == line@.len(),
                self.out@ == pre_out + line@.take(k as int),
                self.ncols == old(self).ncols,
                self.header == old(self).header,
                self.records == old(self).records,
            decreases n - k,
        {
            self.out.push(line[k]);
            proof {
                assert(self.out@ =~= pre_out + line@.take(k as int + 1));
            }
            k += 1;
        }
        proof {
            assert(self.out@ =~= pre_out + line@);
        }
        self.records = Ghost(self.records@.push(rec@));
        proof {
            let t = self.records@;
            assert(t.drop_last() =~= old(self).records@);
            assert(t.last() == rec@);
            assert forall|i: int| 0 <= i < t.len() implies (#[trigger] t[i]).len()
                == self.ncols by {
                if i < t.len() - 1 {
                    assert(t[i] == old(self).records@[i]);
                }
            }
        }
    }

    /// Serializes rows `0 .. rows` of one fetched batch, in row order: one
    /// record per row, appended to the stream in exactly the order the source
    /// returned the rows — no reordering, no deduplication.
    pub fn emit_batch(&mut self, buf: &RowBatchBuffer, rows: usize)
        requires
            old(self).wf(),
            buf.wf(),
            rows <= buf.batch_cap(),
            buf.col_count() == old(self).col_count(),
        ensures
            final(self).wf(),
            final(self).header() == old(self).header(),
            final(self).col_count() == old(self).col_count(),
            final(self).transcript() == old(self).transcript() + Seq::new(
                rows as nat,
                |r: int| spec_record_of(buf.row_cells(r)),
            ),
    {
        let ghost pre = *self;
        let mut row: usize = 0;
        while row < rows
            invariant
                row <= rows,
                pre.wf(),
                buf.wf(),
                rows <= buf.batch_cap(),
                buf.col_count() == pre.col_count(),
                self.wf(),
                self.header() == pre.header(),
                self.col_count() == pre.col_count(),
                self.transcript() == pre.transcript() + Seq::new(
                    row as nat,
                    |r: int| spec_record_of(buf.row_cells(r)),
                ),
            decreases rows - row,
        {
            let rec = record_from_row(buf, row);
            self.emit_row(&rec);
            proof {
                assert(self.transcript() =~= pre.transcript() + Seq::new(
                    row as nat + 1,
                    |r: int| spec_record_of(buf.row_cells(r)),
                ));
            }
            row += 1;
        }
        proof {
            assert(self.transcript() =~= pre.transcript() + Seq::new(
                rows as nat,
                |r: int| spec_record_of(buf.row_cells(r)),
            ));
        }
    }

    /// The bytes handed to the sink so far: the framed header record followed
    /// by every framed data record, in emission order.
    pub fn as_bytes(&self) -> (r: &Vec<u8>)
        ensures
            r@ == self.bytes(),
    {
        &self.out
    }
}

/// Header law: the stream of a query execution carries exactly one header
/// record, the column names in schema order, and it stands before every data
/// record; and every record of the stream — however many of its row's cells
/// were absent — has one field per column of the schema.
pub proof fn lemma_stream_shape(e: &Emitter)
    requires
        e.wf(),
    ensures
        e.transcript().len() >= 1,
        e.transcript()[0] == e.header(),
        forall|i: int|
            0 <= i < e.transcript().len() ==> (#[trigger] e.transcript()[i]).len() == e.col_count(),
{
}

/// The notice reported when a statement produces no result set at all: a
/// normal outcome, distinct from a result set with zero rows. No output is
/// produced for it — not even a header.
pub fn no_result_set_notice() -> (r: &'static str)
    ensures
        r@ == "Query came back empty. No output has been created."@,
{
    "Query came back empty. No output has been created."
}

} // verus!
