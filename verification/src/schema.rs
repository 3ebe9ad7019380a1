//! Column metadata for one query: ordered column names and per-column maximum
//! cell widths, derived once per cursor and fixed for the cursor's lifetime.

use vstd::prelude::*;
use crate::errors::ExtractError;

verus! {

/// One result column: its name, as text bytes, and the maximum width in bytes
/// of any cell value the source may report for it.
pub struct Column {
    pub name: Vec<u8>,
    pub max_width: usize,
}

/// Ordered column metadata for one query's result set.
pub struct ColumnSchema {
    pub cols: Vec<Column>,
}

/// The content a schema must have when the cursor reports the given ordered
/// names and maximum widths: the probe is a pure function of that metadata.
pub open spec fn schema_model(names: Seq<Seq<u8>>, widths: Seq<usize>) -> Seq<(Seq<u8>, usize)>
    recommends
        names.len() == widths.len(),
{
    Seq::new(names.len(), |i: int| (names[i], widths[i]))
}

impl ColumnSchema {
    /// The full content of the schema: for each column, its name and width.
    pub open spec fn model(&self) -> Seq<(Seq<u8>, usize)> {
        self.cols@.map(|_i: int, c: Column| (c.name@, c.max_width))
    }

    /// The ordered column names.
    pub open spec fn names(&self) -> Seq<Seq<u8>> {
        self.model().map(|_i: int, e: (Seq<u8>, usize)| e.0)
    }

    /// The per-column maximum cell widths.
    pub open spec fn widths(&self) -> Seq<usize> {
        self.model().map(|_i: int, e: (Seq<u8>, usize)| e.1)
    }

    pub open spec fn col_count(&self) -> nat {
        self.cols@.len()
    }

    /// How many columns the result set has.
    pub fn num_cols(&self) -> (n: usize)
        ensures
            n == self.col_count(),
    {
        self.cols.len()
    }
}

/// The schema probe, applied to the metadata an open cursor reports: the
/// ordered column names and each column's maximum width. Fails with the
/// schema error exactly when the reported metadata is inconsistent (the
/// source names more columns than it gives widths for, or the reverse).
pub fn build_schema(names: Vec<Vec<u8>>, widths: &Vec<usize>) -> (r: Result<
    ColumnSchema,
    ExtractError,
>)
    ensures
        r is Ok <==> names@.len() == widths@.len(),
        r is Err ==> r->Err_0 is Schema,
        r is Ok ==> r->Ok_0.model() == schema_model(names.deep_view(), widths@),
{
    if names.len() != widths.len() {
        return Err(ExtractError::Schema);
    }
    let ghost all_names = names@;
    let mut remaining = names;
    let mut cols: Vec<Column> = Vec::new();
    let mut i: usize = 0;
    while i < widths.len()
        invariant
            i <= widths.len(),
            all_names.len() == widths@.len(),
            remaining@ == all_names.skip(i as int),
            cols@.len() == i as int,
            forall|j: int|
                0 <= j < i as int ==> #[trigger] cols@[j].name@ == all_names[j]@
                    && cols@[j].max_width == widths@[j],
        decreases widths.len() - i,
    {
        let name = remaining.remove(0);
        proof {
            assert(name == all_names.skip(i as int)[0]);
            assert(remaining@ =~= all_names.skip(i as int + 1));
        }
        cols.push(Column { name, max_width: widths[i] });
        i = i + 1;
    }
    let schema = ColumnSchema { cols };
    proof {
        assert forall|j: int| 0 <= j < all_names.len() implies Seq::new(
            all_names.len(),
            |k: int| all_names[k].deep_view(),
        )[j] =~= all_names[j]@ by {}
        assert(schema.model() =~= schema_model(Seq::new(
            all_names.len(),
            |k: int| all_names[k].deep_view(),
        ), widths@));
    }
    Ok(schema)
}

/// Idempotence of the schema probe: the probe is a pure function of the
/// metadata the cursor reports, and an unconsumed cursor reports the same
/// names and widths each time it is asked, so probing such a cursor twice
/// yields schemas with identical content.
pub proof fn lemma_schema_probe_idempotent(
    first: ColumnSchema,
    second: ColumnSchema,
    names: Seq<Seq<u8>>,
    widths: Seq<usize>,
)
    requires
        first.model() == schema_model(names, widths),
        second.model() == schema_model(names, widths),
    ensures
        first.model() == second.model(),
        first.names() == second.names(),
        first.widths() == second.widths(),
        first.col_count() == second.col_count(),
{
    assert(first.names() =~= second.names());
    assert(first.widths() =~= second.widths());
    assert(first.col_count() == first.model().len());
}

} // verus!
