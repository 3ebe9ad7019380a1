//! The reusable text buffer rows are fetched into: one backing store,
//! partitioned per column, each partition holding `batch_capacity` fixed-width
//! cell slots. Capacity is fixed at construction; fetches overwrite cells in
//! place and the buffer is never reallocated mid-loop.

use vstd::prelude::*;
use vstd::arithmetic::div_mod::lemma_fundamental_div_mod_converse;
use vstd::arithmetic::mul::lemma_mul_inequality;
use vstd::arithmetic::mul::lemma_mul_nonnegative;
use crate::errors::ExtractError;
use crate::schema::ColumnSchema;

verus! {

/// The width reserved for one cell of a column whose reported maximum width
/// is `w`, under an optional per-cell upper bound.
pub open spec fn spec_cell_width(w: usize, per_cell_cap: Option<usize>) -> usize {
    match per_cell_cap {
        Some(cap) => if w <= cap {
            w
        } else {
            cap
        },
        None => w,
    }
}

/// Backing-store bytes needed by the first `n` columns: the sum over those
/// columns of reserved cell width times batch capacity.
pub open spec fn spec_store_bytes(
    widths: Seq<usize>,
    per_cell_cap: Option<usize>,
    bcap: nat,
    n: int,
) -> int
    decreases n,
{
    if n <= 0 {
        0
    } else {
        spec_store_bytes(widths, per_cell_cap, bcap, n - 1) + spec_cell_width(
            widths[n - 1],
            per_cell_cap,
        ) * bcap
    }
}

proof fn lemma_store_bytes_nonneg(widths: Seq<usize>, per_cell_cap: Option<usize>, bcap: nat, n: int)
    ensures
        0 <= spec_store_bytes(widths, per_cell_cap, bcap, n),
    decreases n,
{
    if n > 0 {
        lemma_store_bytes_nonneg(widths, per_cell_cap, bcap, n - 1);
        lemma_mul_nonnegative(spec_cell_width(widths[n - 1], per_cell_cap) as int, bcap as int);
    }
}

proof fn lemma_store_bytes_monotone(
    widths: Seq<usize>,
    per_cell_cap: Option<usize>,
    bcap: nat,
    n1: int,
    n2: int,
)
    requires
        n1 <= n2,
    ensures
        spec_store_bytes(widths, per_cell_cap, bcap, n1) <= spec_store_bytes(
            widths,
            per_cell_cap,
            bcap,
            n2,
        ),
    decreases n2 - n1,
{
    if n1 < n2 {
        lemma_store_bytes_monotone(widths, per_cell_cap, bcap, n1, n2 - 1);
        lemma_mul_nonnegative(spec_cell_width(widths[n2 - 1], per_cell_cap) as int, bcap as int);
    }
}

fn cell_width_of(w: usize, per_cell_cap: Option<usize>) -> (r: usize)
    ensures
        r == spec_cell_width(w, per_cell_cap),
{
    match per_cell_cap {
        Some(cap) => if w <= cap {
            w
        } else {
            cap
        },
        None => w,
    }
}

/// A fixed-capacity, column-major text buffer. Column `c`'s partition is the
/// byte range `offsets[c] .. offsets[c + 1]` of `data`, holding one
/// `widths[c]`-byte slot per row. `lens` records, per cell slot, whether the
/// cell is absent or present with how many of its slot's bytes are meaningful.
pub struct RowBatchBuffer {
    capacity: usize,
    widths: Vec<usize>,
    offsets: Vec<usize>,
    data: Vec<u8>,
    lens: Vec<Option<usize>>,
}

impl RowBatchBuffer {
    /// How many rows one fetch may deliver into this buffer.
    pub closed spec fn batch_cap(&self) -> nat {
        self.capacity as nat
    }

    /// How many columns each row has.
    pub closed spec fn col_count(&self) -> nat {
        self.widths@.len()
    }

    /// The reserved width, in bytes, of one cell of column `c`.
    pub closed spec fn cell_width(&self, c: int) -> nat {
        self.widths@[c] as nat
    }

    closed spec fn off(&self, c: int) -> int {
        self.offsets@[c] as int
    }

    closed spec fn lens_index(&self, r: int, c: int) -> int {
        c * (self.capacity as int) + r
    }

    closed spec fn cell_start(&self, r: int, c: int) -> int {
        self.off(c) + r * (self.cell_width(c) as int)
    }

    /// Structural invariant: the partitions tile the backing store in column
    /// order, there is one cell slot per row and column, and a present cell
    /// never claims more bytes than its slot holds.
    pub closed spec fn wf(&self) -> bool {
        &&& self.offsets@.len() == self.widths@.len() + 1
        &&& self.offsets@[0] == 0
        &&& forall|c: int|
            0 <= c < self.widths@.len() ==> self.offsets@[c + 1] == self.offsets@[c] + (
            #[trigger] self.widths@[c]) * self.capacity
        &&& self.data@.len() == self.offsets@[self.widths@.len() as int]
        &&& self.lens@.len() == self.widths@.len() * self.capacity
        &&& forall|i: int|
            0 <= i < self.lens@.len() ==> ((#[trigger] self.lens@[i]) matches Some(l) ==> l
                <= self.widths@[i / (self.capacity as int)])
    }

    /// The content of the cell at row `r`, column `c`: absent, or present with
    /// the bytes the source last wrote there.
    pub closed spec fn cell_spec(&self, r: int, c: int) -> Option<Seq<u8>> {
        match self.lens@[self.lens_index(r, c)] {
            None => None,
            Some(l) => Some(
                self.data@.subrange(self.cell_start(r, c), self.cell_start(r, c) + l),
            ),
        }
    }

    /// All cells of row `r`, in column order.
    pub open spec fn row_cells(&self, r: int) -> Seq<Option<Seq<u8>>> {
        Seq::new(self.col_count(), |c: int| self.cell_spec(r, c))
    }

    /// The dimensions fixed at construction agree with `other`'s.
    pub open spec fn same_shape(&self, other: &Self) -> bool {
        &&& self.batch_cap() == other.batch_cap()
        &&& self.col_count() == other.col_count()
        &&& forall|c: int| 0 <= c < self.col_count() ==> #[trigger] self.cell_width(c)
            == other.cell_width(c)
    }

    proof fn lemma_off_monotone(&self, c1: int, c2: int)
        requires
            self.wf(),
            0 <= c1 <= c2 <= self.col_count(),
        ensures
            self.off(c1) <= self.off(c2),
        decreases c2 - c1,
    {
        if c1 < c2 {
            self.lemma_off_monotone(c1, c2 - 1);
            lemma_mul_nonnegative(self.widths@[c2 - 1] as int, self.capacity as int);
        }
    }

    proof fn lemma_cell_range(&self, r: int, c: int)
        requires
            self.wf(),
            0 <= r < self.batch_cap(),
            0 <= c < self.col_count(),
        ensures
            self.off(c) <= self.cell_start(r, c),
            self.cell_start(r, c) + self.cell_width(c) <= self.off(c + 1),
            self.off(c + 1) <= self.data@.len(),
    {
        let w = self.cell_width(c) as int;
        lemma_mul_nonnegative(r, w);
        assert(r * w + w <= (self.capacity as int) * w) by (nonlinear_arith)
            requires
                r + 1 <= self.capacity as int,
                0 <= w,
        ;
        assert((self.widths@[c] as int) * (self.capacity as int) == (self.capacity as int) * w)
            by (nonlinear_arith)
            requires
                w == self.widths@[c] as int,
        ;
        self.lemma_off_monotone(c + 1, self.col_count() as int);
    }

    proof fn lemma_cells_disjoint(&self, r1: int, c1: int, r2: int, c2: int)
        requires
            self.wf(),
            0 <= r1 < self.batch_cap(),
            0 <= c1 < self.col_count(),
            0 <= r2 < self.batch_cap(),
            0 <= c2 < self.col_count(),
            !(r1 == r2 && c1 == c2),
        ensures
            self.cell_start(r1, c1) + self.cell_width(c1) <= self.cell_start(r2, c2)
                || self.cell_start(r2, c2) + self.cell_width(c2) <= self.cell_start(r1, c1),
    {
        self.lemma_cell_range(r1, c1);
        self.lemma_cell_range(r2, c2);
        if c1 == c2 {
            let w = self.cell_width(c1) as int;
            if r1 < r2 {
                assert(r1 * w + w <= r2 * w) by (nonlinear_arith)
                    requires
                        r1 + 1 <= r2,
                        0 <= w,
                ;
            } else {
                assert(r2 * w + w <= r1 * w) by (nonlinear_arith)
                    requires
                        r2 + 1 <= r1,
                        0 <= w,
                ;
            }
        } else if c1 < c2 {
            self.lemma_off_monotone(c1 + 1, c2);
            lemma_mul_nonnegative(r2, self.cell_width(c2) as int);
        } else {
            self.lemma_off_monotone(c2 + 1, c1);
            lemma_mul_nonnegative(r1, self.cell_width(c1) as int);
        }
    }

    proof fn lemma_lens_index(&self, r: int, c: int)
        requires
            self.wf(),
            0 <= r < self.batch_cap(),
            0 <= c < self.col_count(),
        ensures
            0 <= self.lens_index(r, c) < self.lens@.len(),
            self.lens_index(r, c) / (self.capacity as int) == c,
            self.lens_index(r, c) % (self.capacity as int) == r,
    {
        let cap = self.capacity as int;
        lemma_fundamental_div_mod_converse(c * cap + r, cap, c, r);
        lemma_mul_nonnegative(c, cap);
        assert(c * cap + r < (self.widths@.len() as int) * cap) by (nonlinear_arith)
            requires
                0 <= r < cap,
                0 <= c,
                c + 1 <= self.widths@.len() as int,
        ;
    }

    /// Distinct cells record their lengths in distinct slots.
    proof fn lemma_lens_index_injective(&self, r1: int, c1: int, r2: int, c2: int)
        requires
            self.wf(),
            0 <= r1 < self.batch_cap(),
            0 <= c1 < self.col_count(),
            0 <= r2 < self.batch_cap(),
            0 <= c2 < self.col_count(),
            !(r1 == r2 && c1 == c2),
        ensures
            self.lens_index(r1, c1) != self.lens_index(r2, c2),
    {
        self.lemma_lens_index(r1, c1);
        self.lemma_lens_index(r2, c2);
    }

    /// Sizes a buffer from the schema: per column,
    /// `min(max_width, per_cell_cap)` bytes per cell times `batch_capacity`
    /// rows. Fails with the allocation error exactly when the requested sizes
    /// do not fit the machine's address arithmetic. Every cell of a fresh
    /// buffer is absent.
    pub fn new(schema: &ColumnSchema, batch_capacity: usize, per_cell_cap: Option<usize>) -> (r:
        Result<RowBatchBuffer, ExtractError>)
        ensures
            r is Ok <==> {
                &&& schema.col_count() * batch_capacity <= usize::MAX
                &&& spec_store_bytes(
                    schema.widths(),
                    per_cell_cap,
                    batch_capacity as nat,
                    schema.col_count() as int,
                ) <= usize::MAX
            },
            r is Err ==> r->Err_0 is Allocation,
            r matches Ok(b) ==> {
                &&& b.wf()
                &&& b.batch_cap() == batch_capacity
                &&& b.col_count() == schema.col_count()
                &&& forall|c: int|
                    0 <= c < schema.col_count() ==> #[trigger] b.cell_width(c) == spec_cell_width(
                        schema.widths()[c],
                        per_cell_cap,
                    )
                &&& forall|ri: int, c: int|
                    0 <= ri < batch_capacity && 0 <= c < schema.col_count() ==> #[trigger] b
                        .cell_spec(ri, c) is None
            },
    {
        let ghost swidths = schema.widths();
        let ghost bcap = batch_capacity as nat;
        let ncols = schema.num_cols();
        let lens_total = match ncols.checked_mul(batch_capacity) {
            Some(t) => t,
            None => {
                return Err(ExtractError::Allocation);
            },
        };
        let mut widths: Vec<usize> = Vec::new();
        let mut offsets: Vec<usize> = Vec::new();
        offsets.push(0);
        let mut c: usize = 0;
        while c < ncols
            invariant
                c <= ncols,
                ncols == schema.col_count(),
                swidths == schema.widths(),
                bcap == batch_capacity as nat,
                swidths.len() == ncols,
                widths@.len() == c,
                offsets@.len() == c + 1,
                offsets@[0] == 0,
                forall|j: int|
                    0 <= j < c ==> #[trigger] widths@[j] == spec_cell_width(
                        swidths[j],
                        per_cell_cap,
                    ),
                forall|j: int|
                    0 <= j < c ==> offsets@[j + 1] == offsets@[j] + (#[trigger] widths@[j])
                        * batch_capacity,
                offsets@[c as int] == spec_store_bytes(swidths, per_cell_cap, bcap, c as int),
            decreases ncols - c,
        {
            proof {
                assert(schema.model()[c as int] == (
                    schema.cols@[c as int].name@,
                    schema.cols@[c as int].max_width,
                ));
                assert(swidths[c as int] == schema.model()[c as int].1);
            }
            let w = cell_width_of(schema.cols[c].max_width, per_cell_cap);
            let chunk = match w.checked_mul(batch_capacity) {
                Some(ch) => ch,
                None => {
                    proof {
                        lemma_store_bytes_nonneg(swidths, per_cell_cap, bcap, c as int);
                        lemma_store_bytes_monotone(
                            swidths,
                            per_cell_cap,
                            bcap,
                            c as int + 1,
                            ncols as int,
                        );
                        assert(spec_store_bytes(swidths, per_cell_cap, bcap, c as int + 1)
                            == spec_store_bytes(swidths, per_cell_cap, bcap, c as int)
                            + spec_cell_width(swidths[c as int], per_cell_cap) * bcap);
                    }
                    return Err(ExtractError::Allocation);
                },
            };
            let base = offsets[c];
            let next = match base.checked_add(chunk) {
                Some(n) => n,
                None => {
                    proof {
                        lemma_store_bytes_monotone(
                            swidths,
                            per_cell_cap,
                            bcap,
                            c as int + 1,
                            ncols as int,
                        );
                        assert(spec_store_bytes(swidths, per_cell_cap, bcap, c as int + 1)
                            == spec_store_bytes(swidths, per_cell_cap, bcap, c as int)
                            + spec_cell_width(swidths[c as int], per_cell_cap) * bcap);
                    }
                    return Err(ExtractError::Allocation);
                },
            };
            widths.push(w);
            offsets.push(next);
            proof {
                assert(spec_store_bytes(swidths, per_cell_cap, bcap, c as int + 1)
                    == spec_store_bytes(swidths, per_cell_cap, bcap, c as int) + spec_cell_width(
                    swidths[c as int],
                    per_cell_cap,
                ) * bcap);
            }
            c += 1;
        }
        let total = offsets[ncols];
        let data: Vec<u8> = vec![0u8; total];
        let lens: Vec<Option<usize>> = vec![None; lens_total];
        let buf = RowBatchBuffer { capacity: batch_capacity, widths, offsets, data, lens };
        proof {
            assert(buf.lens@.len() == (buf.widths@.len() as int) * (buf.capacity as int))
                by (nonlinear_arith)
                requires
                    buf.lens@.len() == lens_total,
                    lens_total == (ncols as int) * (batch_capacity as int),
                    buf.widths@.len() == ncols,
                    buf.capacity == batch_capacity,
            ;
            assert(buf.wf());
            assert forall|ri: int, cc: int|
                0 <= ri < batch_capacity && 0 <= cc < schema.col_count() implies #[trigger] buf
                .cell_spec(ri, cc) is None by {
                buf.lemma_lens_index(ri, cc);
            }
        }
        Ok(buf)
    }

    /// How many rows one fetch may deliver into this buffer.
    pub fn batch_capacity(&self) -> (n: usize)
        ensures
            n == self.batch_cap(),
    {
        self.capacity
    }

    /// How many columns each row has.
    pub fn num_cols(&self) -> (n: usize)
        ensures
            n == self.col_count(),
    {
        self.widths.len()
    }

    /// The reserved width, in bytes, of one cell of column `col`: no present
    /// cell of that column may carry more bytes.
    pub fn col_width(&self, col: usize) -> (w: usize)
        requires
            col < self.col_count(),
        ensures
            w == self.cell_width(col as int),
    {
        self.widths[col]
    }

    /// The fetch mechanism writes the bytes of one present cell. The bytes
    /// must fit the cell's reserved width; every other cell keeps its content.
    pub fn fill_cell(&mut self, row: usize, col: usize, bytes: &[u8])
        requires
            old(self).wf(),
            row < old(self).batch_cap(),
            col < old(self).col_count(),
            bytes@.len() <= old(self).cell_width(col as int),
        ensures
            final(self).wf(),
            final(self).same_shape(old(self)),
            final(self).cell_spec(row as int, col as int) == Some(bytes@),
            forall|r: int, c: int|
                0 <= r < old(self).batch_cap() && 0 <= c < old(self).col_count() && !(r
                    == row as int && c == col as int) ==> #[trigger] final(self).cell_spec(r, c)
                    == old(self).cell_spec(r, c),
    {
        let ghost pre = *self;
        proof {
            pre.lemma_cell_range(row as int, col as int);
            pre.lemma_lens_index(row as int, col as int);
        }
        let w = self.widths[col];
        let start = self.offsets[col] + row * w;
        let n = bytes.len();
        let mut k: usize = 0;
        while k < n
            invariant
                k <= n,
                n == bytes@.len(),
                pre.wf(),
                row < pre.batch_cap(),
                col < pre.col_count(),
                n <= pre.cell_width(col as int),
                self.capacity == pre.capacity,
                self.widths == pre.widths,
                self.offsets == pre.offsets,
                self.lens == pre.lens,
                self.data@.len() == pre.data@.len(),
                start == pre.cell_start(row as int, col as int),
                start + n <= pre.data@.len(),
                forall|j: int|
                    0 <= j < pre.data@.len() && !(start <= j < start + k) ==> self.data@[j]
                        == pre.data@[j],
                forall|j: int| start <= j < start + k ==> self.data@[j] == bytes@[j - start],
            decreases n - k,
        {
            self.data[start + k] = bytes[k];
            k += 1;
        }
        let n_slots = self.lens.len();
        proof {
            assert(n_slots == self.lens@.len());
            assert((col as int) * (self.capacity as int) + (row as int) == pre.lens_index(
                row as int,
                col as int,
            ));
        }
        self.lens[col * self.capacity + row] = Some(n);
        proof {
            let cap = self.capacity as int;
            let idx = pre.lens_index(row as int, col as int);
            assert(self.lens@ == pre.lens@.update(idx, Some(n)));
            assert forall|i: int|
                0 <= i < self.lens@.len() implies ((#[trigger] self.lens@[i]) matches Some(l) ==> l
                <= self.widths@[i / cap]) by {
                if i != idx {
                    assert(self.lens@[i] == pre.lens@[i]);
                }
            }
            assert(self.wf());
            assert(self.cell_spec(row as int, col as int) matches Some(b) && b =~= bytes@);
            assert forall|r: int, c: int|
                0 <= r < pre.batch_cap() && 0 <= c < pre.col_count() && !(r == row as int && c
                    == col as int) implies #[trigger] self.cell_spec(r, c) == pre.cell_spec(r, c) by {
                pre.lemma_lens_index_injective(r, c, row as int, col as int);
                pre.lemma_lens_index(r, c);
                pre.lemma_cell_range(r, c);
                pre.lemma_cells_disjoint(r, c, row as int, col as int);
                match pre.lens@[pre.lens_index(r, c)] {
                    Some(l) => {
                        assert(self.data@.subrange(
                            pre.cell_start(r, c),
                            pre.cell_start(r, c) + l,
                        ) =~= pre.data@.subrange(pre.cell_start(r, c), pre.cell_start(r, c) + l));
                    },
                    None => {},
                }
            }
        }
    }

    /// The fetch mechanism marks one cell absent (a null from the source).
    /// Every other cell keeps its content.
    pub fn mark_absent(&mut self, row: usize, col: usize)
        requires
            old(self).wf(),
            row < old(self).batch_cap(),
            col < old(self).col_count(),
        ensures
            final(self).wf(),
            final(self).same_shape(old(self)),
            final(self).cell_spec(row as int, col as int) is None,
            forall|r: int, c: int|
                0 <= r < old(self).batch_cap() && 0 <= c < old(self).col_count() && !(r
                    == row as int && c == col as int) ==> #[trigger] final(self).cell_spec(r, c)
                    == old(self).cell_spec(r, c),
    {
        let ghost pre = *self;
        let n_slots = self.lens.len();
        proof {
            assert(n_slots == self.lens@.len());
            pre.lemma_lens_index(row as int, col as int);
            assert((col as int) * (self.capacity as int) + (row as int) == pre.lens_index(
                row as int,
                col as int,
            ));
        }
        self.lens[col * self.capacity + row] = None;
        proof {
            let cap = self.capacity as int;
            let idx = pre.lens_index(row as int, col as int);
            assert(self.lens@ == pre.lens@.update(idx, None::<usize>));
            assert forall|i: int|
                0 <= i < self.lens@.len() implies ((#[trigger] self.lens@[i]) matches Some(l) ==> l
                <= self.widths@[i / cap]) by {
                if i != idx {
                    assert(self.lens@[i] == pre.lens@[i]);
                }
            }
            assert(self.wf());
            assert forall|r: int, c: int|
                0 <= r < pre.batch_cap() && 0 <= c < pre.col_count() && !(r == row as int && c
                    == col as int) implies #[trigger] self.cell_spec(r, c) == pre.cell_spec(r, c) by {
                pre.lemma_lens_index_injective(r, c, row as int, col as int);
                pre.lemma_lens_index(r, c);
            }
        }
    }

    /// Reads one cell: absent, or present with an owned copy of its bytes
    /// (decoupled from this buffer, which the next fetch overwrites).
    pub fn cell(&self, row: usize, col: usize) -> (r: Option<Vec<u8>>)
        requires
            self.wf(),
            row < self.batch_cap(),
            col < self.col_count(),
        ensures
            r is Some <==> self.cell_spec(row as int, col as int) is Some,
            r matches Some(v) ==> self.cell_spec(row as int, col as int) == Some(v@),
    {
        let n_slots = self.lens.len();
        proof {
            assert(n_slots == self.lens@.len());
            self.lemma_lens_index(row as int, col as int);
            self.lemma_cell_range(row as int, col as int);
            assert((col as int) * (self.capacity as int) + (row as int) == self.lens_index(
                row as int,
                col as int,
            ));
        }
        match self.lens[col * self.capacity + row] {
            None => None,
            Some(l) => {
                let start = self.offsets[col] + row * self.widths[col];
                let ghost idx = self.lens_index(row as int, col as int);
                proof {
                    assert(self.lens@[idx] matches Some(ll) && ll == l);
                    assert(l <= self.widths@[idx / (self.capacity as int)]);
                }
                let mut out: Vec<u8> = Vec::new();
                let mut k: usize = 0;
                while k < l
                    invariant
                        k <= l,
                        self.wf(),
                        row < self.batch_cap(),
                        col < self.col_count(),
                        start == self.cell_start(row as int, col as int),
                        start + l <= self.data@.len(),
                        out@.len() == k,
                        forall|j: int| 0 <= j < k ==> out@[j] == self.data@[start + j],
                    decreases l - k,
                {
                    out.push(self.data[start + k]);
                    k += 1;
                }
                proof {
                    assert(out@ =~= self.data@.subrange(start as int, start as int + l));
                }
                Some(out)
            },
        }
    }
}

} // verus!
