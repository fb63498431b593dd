use vstd::prelude::*;

verus! {

/// A dense matrix with a fixed shape, stored as one flat buffer in row-major
/// order. Entries are integer numerators over the common denominator
/// `scale`: the entry at row `i`, column `j` has the value
/// `self.num(i, j) / self.spec_scale()`.
///
/// The buffer is allocated once at creation, zero-initialized, and never
/// resized: `data.len() == rows * columns` always holds (see [`Mat::wf`]).
pub struct Mat {
    rows: usize,
    columns: usize,
    scale: u64,
    data: Vec<i64>,
}

/// The flat row-major position of row `i`, column `j` lies inside a
/// `rows * columns` buffer.
pub(crate) proof fn lemma_flat_index_bounds(rows: int, columns: int, i: int, j: int)
    by (nonlinear_arith)
    requires
        0 <= i < rows,
        0 <= j < columns,
    ensures
        0 <= i * columns + j < rows * columns,
{
}

/// Distinct in-bounds positions have distinct flat row-major indices.
pub(crate) proof fn lemma_flat_index_injective(
    columns: int,
    i1: int,
    j1: int,
    i2: int,
    j2: int,
)
    by (nonlinear_arith)
    requires
        0 <= i1,
        0 <= i2,
        0 <= j1 < columns,
        0 <= j2 < columns,
        i1 != i2 || j1 != j2,
    ensures
        i1 * columns + j1 != i2 * columns + j2,
{
}

/// A whole row lies inside a `rows * columns` buffer.
pub(crate) proof fn lemma_flat_row_bounds(rows: int, columns: int, i: int)
    by (nonlinear_arith)
    requires
        0 <= i < rows,
        0 <= columns,
    ensures
        0 <= i * columns,
        i * columns + columns <= rows * columns,
{
}

impl Mat {
    /// Number of rows, as a mathematical integer.
    pub closed spec fn spec_rows(&self) -> int {
        self.rows as int
    }

    /// Number of columns, as a mathematical integer.
    pub closed spec fn spec_columns(&self) -> int {
        self.columns as int
    }

    /// The common denominator of all entries, as a mathematical integer.
    pub closed spec fn spec_scale(&self) -> int {
        self.scale as int
    }

    /// The numerator stored at row `i`, column `j`.
    pub closed spec fn num(&self, i: int, j: int) -> int
        recommends
            0 <= i < self.spec_rows(),
            0 <= j < self.spec_columns(),
    {
        self.data@[i * self.spec_columns() + j] as int
    }

    /// Well-formedness: the flat buffer holds exactly one numerator per
    /// position of the `rows * columns` grid (so the grid itself is small
    /// enough to be addressed by `usize` indices).
    pub closed spec fn wf(&self) -> bool {
        self.data@.len() == self.spec_rows() * self.spec_columns()
            && self.spec_rows() * self.spec_columns() <= usize::MAX
    }

    /// The dimensions and the denominator are machine integers, hence never
    /// negative.
    pub proof fn lemma_dims_nonneg(&self)
        ensures
            0 <= self.spec_rows(),
            0 <= self.spec_columns(),
            0 <= self.spec_scale(),
    {
    }

    /// A well-formed matrix has at most `usize::MAX` entries, so every flat
    /// row-major index fits in a `usize`.
    pub proof fn lemma_wf_grid_bound(&self)
        requires
            self.wf(),
        ensures
            self.spec_rows() * self.spec_columns() <= usize::MAX,
    {
    }

    /// Creates a `rows * columns` matrix with every numerator zero and the
    /// given denominator.
    pub fn new(rows: usize, columns: usize, scale: u64) -> (m: Mat)
        requires
            rows * columns <= usize::MAX,
        ensures
            m.wf(),
            m.spec_rows() == rows,
            m.spec_columns() == columns,
            m.spec_scale() == scale,
            forall|i: int, j: int|
                0 <= i < rows && 0 <= j < columns ==> m.num(i, j) == 0,
    {
        let len: usize = rows * columns;
        let mut data: Vec<i64> = Vec::new();
        let mut t: usize = 0;
        while t < len
            invariant
                t <= len,
                data@.len() == t,
                forall|k: int| 0 <= k < t ==> data@[k] == 0i64,
            decreases len - t,
        {
            data.push(0i64);
            t = t + 1;
        }
        let m = Mat { rows, columns, scale, data };
        proof {
            assert forall|i: int, j: int|
                0 <= i < rows && 0 <= j < columns implies m.num(i, j) == 0 by {
                lemma_flat_index_bounds(rows as int, columns as int, i, j);
            }
        }
        m
    }

    /// Returns the stored row count.
    pub fn rows(&self) -> (r: usize)
        ensures
            r == self.spec_rows(),
    {
        self.rows
    }

    /// Returns the stored column count.
    pub fn columns(&self) -> (c: usize)
        ensures
            c == self.spec_columns(),
    {
        self.columns
    }

    /// Returns the common denominator of the entries.
    pub fn scale(&self) -> (s: u64)
        ensures
            s == self.spec_scale(),
    {
        self.scale
    }

    /// Reads the numerator at row `i`, column `j`.
    pub fn get(&self, i: usize, j: usize) -> (v: i64)
        requires
            self.wf(),
            i < self.spec_rows(),
            j < self.spec_columns(),
        ensures
            v == self.num(i as int, j as int),
    {
        proof {
            lemma_flat_index_bounds(
                self.spec_rows(),
                self.spec_columns(),
                i as int,
                j as int,
            );
        }
        let idx: usize = i * self.columns + j;
        self.data[idx]
    }

    /// Writes the numerator at row `i`, column `j`; the shape, the
    /// denominator and every other entry are unchanged.
    pub fn set(&mut self, i: usize, j: usize, v: i64)
        requires
            old(self).wf(),
            i < old(self).spec_rows(),
            j < old(self).spec_columns(),
        ensures
            final(self).wf(),
            final(self).spec_rows() == old(self).spec_rows(),
            final(self).spec_columns() == old(self).spec_columns(),
            final(self).spec_scale() == old(self).spec_scale(),
            final(self).num(i as int, j as int) == v,
            forall|i2: int, j2: int|
                0 <= i2 < old(self).spec_rows() && 0 <= j2 < old(self).spec_columns()
                    && (i2 != i as int || j2 != j as int)
                    ==> final(self).num(i2, j2) == old(self).num(i2, j2),
    {
        proof {
            lemma_flat_index_bounds(
                self.spec_rows(),
                self.spec_columns(),
                i as int,
                j as int,
            );
        }
        let idx: usize = i * self.columns + j;
        self.data[idx] = v;
        proof {
            assert forall|i2: int, j2: int|
                0 <= i2 < self.spec_rows() && 0 <= j2 < self.spec_columns()
                    && (i2 != i as int || j2 != j as int)
                    implies self.num(i2, j2) == old(self).num(i2, j2) by {
                lemma_flat_index_bounds(self.spec_rows(), self.spec_columns(), i2, j2);
                lemma_flat_index_injective(
                    self.spec_columns(),
                    i2,
                    j2,
                    i as int,
                    j as int,
                );
            }
        }
    }

    /// Borrows row `i` as a contiguous slice of `columns` numerators.
    pub fn row(&self, i: usize) -> (r: &[i64])
        requires
            self.wf(),
            i < self.spec_rows(),
        ensures
            r@.len() == self.spec_columns(),
            forall|j: int| 0 <= j < self.spec_columns() ==> r@[j] == self.num(i as int, j),
    {
        proof {
            lemma_flat_row_bounds(self.spec_rows(), self.spec_columns(), i as int);
        }
        let start: usize = i * self.columns;
        let end: usize = start + self.columns;
        vstd::slice::slice_subrange(self.data.as_slice(), start, end)
    }
}

} // verus!
