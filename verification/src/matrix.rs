//! Dense row-major integer matrices, the per-cell dot-product job
//! protocol, and the fan-out/fan-in multiplication built on it.

use vstd::prelude::*;
use vstd::arithmetic::div_mod::{
    lemma_div_pos_is_pos, lemma_fundamental_div_mod, lemma_fundamental_div_mod_converse,
    lemma_mod_division_less_than_divisor, lemma_mod_self_0, lemma_small_mod,
};
use crate::decimal::{i64_text, int_text};

verus! {

/// Error raised by the dot-product computation.
#[derive(Debug, PartialEq, Eq, Structural)]
pub enum MatrixError {
    /// The two operand vectors have different lengths.
    LengthMismatch,
}

/// A dense 2-D grid of `i64`, stored row-major in a flat buffer.
///
/// Well-formedness (`data.len() == row * col`) is a caller contract:
/// `new` performs no validation, and the operations that read cells
/// require `well_formed`.
#[derive(Debug)]
pub struct Matrix {
    pub data: Vec<i64>,
    pub row: usize,
    pub col: usize,
}

/// The buffer length matches the announced shape.
pub open spec fn well_formed(m: &Matrix) -> bool {
    m.data@.len() == m.row * m.col
}

/// The element at row `i`, column `j` of the row-major buffer.
pub open spec fn cell(m: &Matrix, i: int, j: int) -> i64 {
    m.data@[i * m.col + j]
}

/// Row `i` as a sequence of `col` elements.
pub open spec fn row_of(m: &Matrix, i: int) -> Seq<i64> {
    Seq::new(m.col as nat, |j: int| cell(m, i, j))
}

/// Column `j` as a sequence of `row` elements.
pub open spec fn col_of(m: &Matrix, j: int) -> Seq<i64> {
    Seq::new(m.row as nat, |i: int| cell(m, i, j))
}

/// All rows, in order.
pub open spec fn rows_of(m: &Matrix) -> Seq<Seq<i64>> {
    Seq::new(m.row as nat, |i: int| row_of(m, i))
}

/// All columns, in order.
pub open spec fn cols_of(m: &Matrix) -> Seq<Seq<i64>> {
    Seq::new(m.col as nat, |j: int| col_of(m, j))
}

/// The inner product of two sequences, over the common prefix.
pub open spec fn dot(a: Seq<i64>, b: Seq<i64>) -> int
    decreases a.len(),
{
    if a.len() == 0 || b.len() == 0 {
        0
    } else {
        dot(a.drop_last(), b.drop_last()) + a.last() * b.last()
    }
}

/// Every elementwise product and every partial sum of the inner
/// product stays within `i64`, so the fold can be computed exactly.
pub open spec fn dot_fits(a: Seq<i64>, b: Seq<i64>) -> bool {
    &&& forall|k: int|
        0 <= k < a.len() && k < b.len() ==> i64::MIN <= #[trigger] (a[k] * b[k]) <= i64::MAX
    &&& forall|k: int|
        0 <= k <= a.len() && k <= b.len() ==> i64::MIN <= #[trigger] dot(
            a.take(k),
            b.take(k),
        ) <= i64::MAX
}

/// Extending both operands by one element adds one product term.
proof fn lemma_dot_step(a: Seq<i64>, b: Seq<i64>, k: int)
    requires
        0 <= k < a.len(),
        k < b.len(),
    ensures
        dot(a.take(k + 1), b.take(k + 1)) == dot(a.take(k), b.take(k)) + a[k] * b[k],
{
    assert(a.take(k + 1).drop_last() =~= a.take(k));
    assert(b.take(k + 1).drop_last() =~= b.take(k));
    assert(a.take(k + 1).last() == a[k]);
    assert(b.take(k + 1).last() == b[k]);
}

/// The inner product of two equal-length vectors, or a
/// `LengthMismatch` error exactly when the lengths differ.
pub fn dot_product(a: &[i64], b: &[i64]) -> (r: Result<i64, MatrixError>)
    requires
        a@.len() == b@.len() ==> dot_fits(a@, b@),
    ensures
        match r {
            Ok(v) => a@.len() == b@.len() && v == dot(a@, b@),
            Err(MatrixError::LengthMismatch) => a@.len() != b@.len(),
        },
{
    if a.len() != b.len() {
        return Err(MatrixError::LengthMismatch);
    }
    let n = a.len();
    let mut acc: i64 = 0;
    proof {
        assert(a@.take(0) =~= Seq::<i64>::empty());
        assert(b@.take(0) =~= Seq::<i64>::empty());
    }
    for k in 0..n
        invariant
            n == a@.len(),
            n == b@.len(),
            dot_fits(a@, b@),
            acc == dot(a@.take(k as int), b@.take(k as int)),
    {
        proof {
            lemma_dot_step(a@, b@, k as int);
        }
        acc = acc + a[k] * b[k];
    }
    proof {
        assert(a@.take(n as int) =~= a@);
        assert(b@.take(n as int) =~= b@);
    }
    Ok(acc)
}

impl Matrix {
    /// Wraps a flat row-major buffer; no validation is performed
    /// (the caller must ensure `data.len() == row * col`).
    pub fn new(data: Vec<i64>, row: usize, col: usize) -> (m: Matrix)
        ensures
            m.data == data,
            m.row == row,
            m.col == col,
    {
        Matrix { data, row, col }
    }

    /// Copies out row `i`.
    pub fn row_vec(&self, i: usize) -> (r: Vec<i64>)
        requires
            well_formed(self),
            i < self.row,
        ensures
            r@ == row_of(self, i as int),
    {
        let mut r: Vec<i64> = Vec::new();
        let dlen = self.data.len();
        for j in 0..self.col
            invariant
                well_formed(self),
                i < self.row,
                dlen == self.data@.len(),
                r@.len() == j,
                forall|t: int| 0 <= t < j ==> r@[t] == row_of(self, i as int)[t],
        {
            proof {
                assert(i * self.col + j < self.row * self.col) by (nonlinear_arith)
                    requires
                        (i as int) < (self.row as int),
                        (j as int) < (self.col as int),
                        0 <= i as int,
                        0 <= j as int,
                ;
            }
            r.push(self.data[i * self.col + j]);
        }
        proof {
            assert(r@ =~= row_of(self, i as int));
        }
        r
    }

    /// Copies out column `j`.
    pub fn col_vec(&self, j: usize) -> (r: Vec<i64>)
        requires
            well_formed(self),
            j < self.col,
        ensures
            r@ == col_of(self, j as int),
    {
        let mut r: Vec<i64> = Vec::new();
        let dlen = self.data.len();
        for i in 0..self.row
            invariant
                well_formed(self),
                j < self.col,
                dlen == self.data@.len(),
                r@.len() == i,
                forall|t: int| 0 <= t < i ==> r@[t] == col_of(self, j as int)[t],
        {
            proof {
                assert(i * self.col + j < self.row * self.col) by (nonlinear_arith)
                    requires
                        (i as int) < (self.row as int),
                        (j as int) < (self.col as int),
                        0 <= i as int,
                        0 <= j as int,
                ;
            }
            r.push(self.data[i * self.col + j]);
        }
        proof {
            assert(r@ =~= col_of(self, j as int));
        }
        r
    }

    /// Returns `row` rows of `col` elements each, in order.
    pub fn rows(&self) -> (r: Vec<Vec<i64>>)
        requires
            well_formed(self),
        ensures
            r@.len() == self.row,
            forall|i: int| 0 <= i < self.row ==> #[trigger] r@[i]@ == rows_of(self)[i],
            forall|i: int| 0 <= i < self.row ==> #[trigger] r@[i]@.len() == self.col,
    {
        let mut r: Vec<Vec<i64>> = Vec::new();
        for i in 0..self.row
            invariant
                well_formed(self),
                r@.len() == i,
                forall|t: int| 0 <= t < i ==> #[trigger] r@[t]@ == rows_of(self)[t],
        {
            r.push(self.row_vec(i));
        }
        r
    }

    /// Returns `col` columns of `row` elements each: the transpose of
    /// the row view.
    pub fn cols(&self) -> (r: Vec<Vec<i64>>)
        requires
            well_formed(self),
        ensures
            r@.len() == self.col,
            forall|j: int| 0 <= j < self.col ==> #[trigger] r@[j]@ == cols_of(self)[j],
            forall|j: int| 0 <= j < self.col ==> #[trigger] r@[j]@.len() == self.row,
    {
        let mut r: Vec<Vec<i64>> = Vec::new();
        for j in 0..self.col
            invariant
                well_formed(self),
                r@.len() == j,
                forall|t: int| 0 <= t < j ==> #[trigger] r@[t]@ == cols_of(self)[t],
        {
            r.push(self.col_vec(j));
        }
        r
    }
}

/// A job request for one output cell: the destination index in the
/// row-major output buffer, and owned copies of the operand vectors.
#[derive(Debug)]
pub struct MsgInput {
    pub idx: usize,
    pub rows: Vec<i64>,
    pub cols: Vec<i64>,
}

impl MsgInput {
    pub fn new(idx: usize, rows: Vec<i64>, cols: Vec<i64>) -> (m: MsgInput)
        ensures
            m.idx == idx,
            m.rows == rows,
            m.cols == cols,
    {
        MsgInput { idx, rows, cols }
    }
}

/// A job reply: the destination cell index and the computed scalar.
#[derive(Debug)]
pub struct MsgOutput {
    pub idx: usize,
    pub value: i64,
}

impl MsgOutput {
    pub fn new(idx: usize, value: i64) -> (m: MsgOutput)
        ensures
            m.idx == idx,
            m.value == value,
    {
        MsgOutput { idx, value }
    }
}

/// A flat cell index `k` of an `r` x `c` grid decomposes into the row
/// `k / c` and the column `k % c`.
pub proof fn lemma_flat_index(k: int, r: int, c: int)
    requires
        0 <= k,
        0 < c,
        k < r * c,
    ensures
        0 <= k / c < r,
        0 <= k % c < c,
        k == (k / c) * c + k % c,
{
    lemma_fundamental_div_mod(k, c);
    lemma_mod_division_less_than_divisor(k, c);
    lemma_div_pos_is_pos(k, c);
    assert((k / c) * c == c * (k / c)) by (nonlinear_arith);
    assert(k / c < r) by (nonlinear_arith)
        requires
            k == c * (k / c) + (k % c),
            0 <= k % c,
            0 <= k / c,
            k < r * c,
            c > 0,
    ;
}

/// Row `i`, column `j` of an `r` x `c` grid has the flat cell index
/// `i * c + j`, and the decomposition inverts the encoding.
pub proof fn lemma_pair_index(i: int, j: int, r: int, c: int)
    requires
        0 <= i < r,
        0 <= j < c,
    ensures
        0 <= i * c + j < r * c,
        (i * c + j) / c == i,
        (i * c + j) % c == j,
{
    assert(0 <= i * c + j < r * c) by (nonlinear_arith)
        requires
            0 <= i < r,
            0 <= j < c,
    ;
    lemma_fundamental_div_mod_converse(i * c + j, c, i, j);
}

/// Bounded-workload completion: with no more cells than workers, the
/// round-robin rule assigns every cell its own worker, so a pool
/// whose workers each service a single job covers the whole workload.
pub proof fn lemma_bounded_workload_distinct(cells: int, workers: int)
    requires
        0 < workers,
        cells <= workers,
    ensures
        forall|k1: int, k2: int|
            0 <= k1 < k2 < cells ==> #[trigger] (k1 % workers) != #[trigger] (k2 % workers),
{
    assert forall|k1: int, k2: int|
        0 <= k1 < k2 < cells implies #[trigger] (k1 % workers) != #[trigger] (k2 % workers) by {
        lemma_small_mod(k1 as nat, workers as nat);
        lemma_small_mod(k2 as nat, workers as nat);
    }
}

/// The limitation of a single-use pool: with more cells than workers,
/// two cells share a worker, so one job finds its worker already
/// spent.
pub proof fn lemma_oversized_workload_collision(cells: int, workers: int)
    requires
        0 < workers < cells,
    ensures
        exists|k1: int, k2: int|
            0 <= k1 < k2 < cells && #[trigger] (k1 % workers) == #[trigger] (k2 % workers),
{
    lemma_small_mod(0nat, workers as nat);
    lemma_mod_self_0(workers);
    assert(0int % workers == 0);
    assert(workers % workers == 0);
    assert(0 <= 0int < workers < cells && 0int % workers == workers % workers);
}

/// The deterministic round-robin assignment of a cell to a worker.
pub fn assign_worker(idx: usize, workers: usize) -> (w: usize)
    requires
        workers > 0,
    ensures
        w == idx % workers,
        w < workers,
{
    idx % workers
}

/// One fan-out job per output cell of `a` x `b`, in ascending cell
/// order: job `k` carries its destination index `k`, row `k / b.col`
/// of `a` and column `k % b.col` of `b`.
pub fn make_jobs(a: &Matrix, b: &Matrix) -> (jobs: Vec<MsgInput>)
    requires
        well_formed(a),
        well_formed(b),
        a.row * b.col <= usize::MAX,
    ensures
        jobs@.len() == a.row * b.col,
        forall|k: int| 0 <= k < jobs@.len() ==> (#[trigger] jobs@[k]).idx == k,
        forall|k: int|
            0 <= k < jobs@.len() ==> (#[trigger] jobs@[k]).rows@ == row_of(
                a,
                k / (b.col as int),
            ),
        forall|k: int|
            0 <= k < jobs@.len() ==> (#[trigger] jobs@[k]).cols@ == col_of(
                b,
                k % (b.col as int),
            ),
{
    let mut jobs: Vec<MsgInput> = Vec::new();
    proof {
        assert(0 * (b.col as int) == 0) by (nonlinear_arith);
    }
    for i in 0..a.row
        invariant
            well_formed(a),
            well_formed(b),
            a.row * b.col <= usize::MAX,
            jobs@.len() == i * b.col,
            forall|k: int| 0 <= k < jobs@.len() ==> (#[trigger] jobs@[k]).idx == k,
            forall|k: int|
                0 <= k < jobs@.len() ==> (#[trigger] jobs@[k]).rows@ == row_of(
                    a,
                    k / (b.col as int),
                ),
            forall|k: int|
                0 <= k < jobs@.len() ==> (#[trigger] jobs@[k]).cols@ == col_of(
                    b,
                    k % (b.col as int),
                ),
    {
        proof {
            assert((i as int) * (b.col as int) + (b.col as int) == ((i as int) + 1) * (
            b.col as int)) by (nonlinear_arith);
            assert(((i as int) + 1) * (b.col as int) <= (a.row as int) * (b.col as int))
                by (nonlinear_arith)
                requires
                    (i as int) + 1 <= a.row as int,
                    0 <= b.col as int,
            ;
        }
        let base = i * b.col;
        for j in 0..b.col
            invariant
                well_formed(a),
                well_formed(b),
                a.row * b.col <= usize::MAX,
                i < a.row,
                base == i * b.col,
                jobs@.len() == base + j,
                base + b.col <= a.row * b.col,
                forall|k: int| 0 <= k < jobs@.len() ==> (#[trigger] jobs@[k]).idx == k,
                forall|k: int|
                    0 <= k < jobs@.len() ==> (#[trigger] jobs@[k]).rows@ == row_of(
                        a,
                        k / (b.col as int),
                    ),
                forall|k: int|
                    0 <= k < jobs@.len() ==> (#[trigger] jobs@[k]).cols@ == col_of(
                        b,
                        k % (b.col as int),
                    ),
        {
            proof {
                lemma_pair_index(i as int, j as int, a.row as int, b.col as int);
            }
            let idx = base + j;
            let row = a.row_vec(i);
            let col = b.col_vec(j);
            jobs.push(MsgInput::new(idx, row, col));
        }
        proof {
            assert((i + 1) * b.col == i * b.col + b.col) by (nonlinear_arith);
        }
    }
    jobs
}

/// What a worker does with one job: computes the dot product of the
/// carried vectors and tags the reply with the same cell index. A
/// length mismatch is reported instead of a reply, exactly as the
/// dot product itself reports it.
pub fn worker_step(input: &MsgInput) -> (r: Result<MsgOutput, MatrixError>)
    requires
        input.rows@.len() == input.cols@.len() ==> dot_fits(input.rows@, input.cols@),
    ensures
        match r {
            Ok(o) => input.rows@.len() == input.cols@.len() && o.idx == input.idx && o.value == dot(
                input.rows@,
                input.cols@,
            ),
            Err(MatrixError::LengthMismatch) => input.rows@.len() != input.cols@.len(),
        },
{
    match dot_product(input.rows.as_slice(), input.cols.as_slice()) {
        Ok(value) => Ok(MsgOutput::new(input.idx, value)),
        Err(e) => Err(e),
    }
}

/// Fills an `row` x `col` output buffer from replies: each reply's
/// value lands at its own cell index, and cells no reply names stay
/// zero.
pub fn collect_results(outputs: &Vec<MsgOutput>, row: usize, col: usize) -> (m: Matrix)
    requires
        row * col <= usize::MAX,
        forall|k: int| 0 <= k < outputs@.len() ==> (#[trigger] outputs@[k]).idx < row * col,
        forall|k1: int, k2: int|
            #![trigger outputs@[k1], outputs@[k2]]
            0 <= k1 < k2 < outputs@.len() ==> outputs@[k1].idx != outputs@[k2].idx,
    ensures
        m.row == row,
        m.col == col,
        well_formed(&m),
        forall|k: int|
            0 <= k < outputs@.len() ==> m.data@[(#[trigger] outputs@[k]).idx as int]
                == outputs@[k].value,
        forall|d: int|
            0 <= d < row * col && (forall|k: int|
                0 <= k < outputs@.len() ==> (#[trigger] outputs@[k]).idx != d) ==> m.data@[d] == 0,
{
    let n = row * col;
    let mut data: Vec<i64> = Vec::new();
    for t in 0..n
        invariant
            data@.len() == t,
            forall|d: int| 0 <= d < t ==> data@[d] == 0,
    {
        data.push(0);
    }
    let count = outputs.len();
    for t in 0..count
        invariant
            count == outputs@.len(),
            data@.len() == n,
            n == row * col,
            forall|k: int| 0 <= k < outputs@.len() ==> (#[trigger] outputs@[k]).idx < row * col,
            forall|k1: int, k2: int|
                #![trigger outputs@[k1], outputs@[k2]]
                0 <= k1 < k2 < outputs@.len() ==> outputs@[k1].idx != outputs@[k2].idx,
            forall|k: int|
                0 <= k < t ==> data@[(#[trigger] outputs@[k]).idx as int] == outputs@[k].value,
            forall|d: int|
                0 <= d < n && (forall|k: int|
                    0 <= k < outputs@.len() ==> (#[trigger] outputs@[k]).idx != d) ==> data@[d]
                    == 0,
    {
        let o_idx = outputs[t].idx;
        let o_value = outputs[t].value;
        data[o_idx] = o_value;
    }
    Matrix::new(data, row, col)
}

impl Matrix {
    /// Matrix multiplication through the fan-out/fan-in job protocol:
    /// one dot-product job per output cell, each tagged with its
    /// destination index, drained back into the output buffer. The
    /// output has shape `self.row` x `rhs.col`, and each cell holds
    /// the dot product of the matching row of `self` and column of
    /// `rhs`.
    pub fn multiply(self, rhs: Matrix) -> (r: Matrix)
        requires
            well_formed(&self),
            well_formed(&rhs),
            self.col == rhs.row,
            self.row * rhs.col <= usize::MAX,
            forall|i: int, j: int|
                0 <= i < self.row && 0 <= j < rhs.col ==> #[trigger] dot_fits(
                    row_of(&self, i),
                    col_of(&rhs, j),
                ),
        ensures
            r.row == self.row,
            r.col == rhs.col,
            well_formed(&r),
            forall|i: int, j: int|
                0 <= i < self.row && 0 <= j < rhs.col ==> cell(&r, i, j) == #[trigger] dot(
                    row_of(&self, i),
                    col_of(&rhs, j),
                ),
    {
        let jobs = make_jobs(&self, &rhs);
        let mut outputs: Vec<MsgOutput> = Vec::new();
        let n = jobs.len();
        for t in 0..n
            invariant
                n == jobs@.len(),
                jobs@.len() == self.row * rhs.col,
                self.col == rhs.row,
                well_formed(&self),
                well_formed(&rhs),
                forall|k: int| 0 <= k < jobs@.len() ==> (#[trigger] jobs@[k]).idx == k,
                forall|k: int|
                    0 <= k < jobs@.len() ==> (#[trigger] jobs@[k]).rows@ == row_of(
                        &self,
                        k / (rhs.col as int),
                    ),
                forall|k: int|
                    0 <= k < jobs@.len() ==> (#[trigger] jobs@[k]).cols@ == col_of(
                        &rhs,
                        k % (rhs.col as int),
                    ),
                forall|i: int, j: int|
                    0 <= i < self.row && 0 <= j < rhs.col ==> #[trigger] dot_fits(
                        row_of(&self, i),
                        col_of(&rhs, j),
                    ),
                outputs@.len() == t,
                forall|k: int| 0 <= k < t ==> (#[trigger] outputs@[k]).idx == k,
                forall|k: int|
                    0 <= k < t ==> (#[trigger] outputs@[k]).value == dot(
                        row_of(&self, k / (rhs.col as int)),
                        col_of(&rhs, k % (rhs.col as int)),
                    ),
        {
            proof {
                assert(0 < rhs.col) by (nonlinear_arith)
                    requires
                        0 <= t as int,
                        (t as int) < (self.row as int) * (rhs.col as int),
                        0 <= rhs.col as int,
                ;
                lemma_flat_index(t as int, self.row as int, rhs.col as int);
                let ki = t as int / (rhs.col as int);
                let kj = t as int % (rhs.col as int);
                assert(dot_fits(row_of(&self, ki), col_of(&rhs, kj)));
                assert(jobs@[t as int].rows@ == row_of(&self, ki));
                assert(jobs@[t as int].cols@ == col_of(&rhs, kj));
                assert(row_of(&self, ki).len() == self.col);
                assert(col_of(&rhs, kj).len() == rhs.row);
            }
            let o = match worker_step(&jobs[t]) {
                Ok(o) => o,
                Err(_) => {
                    proof {
                        assert(false);
                    }
                    vstd::pervasive::unreached()
                },
            };
            outputs.push(o);
        }
        let result = collect_results(&outputs, self.row, rhs.col);
        proof {
            assert forall|i: int, j: int|
                0 <= i < self.row && 0 <= j < rhs.col implies cell(&result, i, j) == #[trigger] dot(
                row_of(&self, i),
                col_of(&rhs, j),
            ) by {
                lemma_pair_index(i, j, self.row as int, rhs.col as int);
                let k = i * (rhs.col as int) + j;
                assert(outputs@[k].idx == k);
                assert(result.data@[k] == outputs@[k].value);
            }
        }
        result
    }
}

/// The text of one row: the elements' decimal text, space-separated.
pub open spec fn row_text(r: Seq<i64>) -> Seq<char>
    decreases r.len(),
{
    if r.len() == 0 {
        Seq::empty()
    } else if r.len() == 1 {
        int_text(r[0] as int)
    } else {
        row_text(r.drop_last()) + seq![' '] + int_text(r.last() as int)
    }
}

/// The text of a sequence of rows, joined by comma-space.
pub open spec fn rows_text(rs: Seq<Seq<i64>>) -> Seq<char>
    decreases rs.len(),
{
    if rs.len() == 0 {
        Seq::empty()
    } else if rs.len() == 1 {
        row_text(rs[0])
    } else {
        rows_text(rs.drop_last()) + seq![',', ' '] + row_text(rs.last())
    }
}

/// The exact rendering of a matrix: the rows' text inside
/// `Matrix<[` ... `]>`.
pub open spec fn render_spec(m: &Matrix) -> Seq<char> {
    "Matrix<["@ + rows_text(rows_of(m)) + "]>"@
}

/// Extending a row prefix by one element appends a space (except at
/// the front) and the element's text.
proof fn lemma_row_text_step(r: Seq<i64>, j: int)
    requires
        0 <= j < r.len(),
    ensures
        row_text(r.take(j + 1)) == if j == 0 {
            int_text(r[0] as int)
        } else {
            row_text(r.take(j)) + seq![' '] + int_text(r[j] as int)
        },
{
    let t = r.take(j + 1);
    if j == 0 {
        assert(t.len() == 1);
        assert(t[0] == r[0]);
    } else {
        assert(t.drop_last() =~= r.take(j));
        assert(t.last() == r[j]);
    }
}

/// Extending a rows prefix by one row appends a comma-space (except
/// at the front) and the row's text.
proof fn lemma_rows_text_step(rs: Seq<Seq<i64>>, i: int)
    requires
        0 <= i < rs.len(),
    ensures
        rows_text(rs.take(i + 1)) == if i == 0 {
            row_text(rs[0])
        } else {
            rows_text(rs.take(i)) + seq![',', ' '] + row_text(rs[i])
        },
{
    let t = rs.take(i + 1);
    if i == 0 {
        assert(t.len() == 1);
        assert(t[0] == rs[0]);
    } else {
        assert(t.drop_last() =~= rs.take(i));
        assert(t.last() == rs[i]);
    }
}

impl Matrix {
    /// Renders the matrix exactly as `Matrix<[` rows `]>`, rows
    /// joined by comma-space, elements within a row by a space.
    pub fn render(&self) -> (s: String)
        requires
            well_formed(self),
        ensures
            s@ == render_spec(self),
    {
        let mut s = String::from_str("Matrix<[");
        let row = self.row;
        let col = self.col;
        let dlen = self.data.len();
        for i in 0..row
            invariant
                well_formed(self),
                row == self.row,
                col == self.col,
                dlen == self.data@.len(),
                s@ == "Matrix<["@ + (if i == 0 {
                    Seq::<char>::empty()
                } else if i < row {
                    rows_text(rows_of(self).take(i as int)) + seq![',', ' ']
                } else {
                    rows_text(rows_of(self))
                }),
        {
            let ghost s0 = s@;
            for j in 0..col
                invariant
                    well_formed(self),
                    i < row,
                    row == self.row,
                    col == self.col,
                    dlen == self.data@.len(),
                    s@ == s0 + (if j == 0 {
                        Seq::<char>::empty()
                    } else if j < col {
                        row_text(row_of(self, i as int).take(j as int)) + seq![' ']
                    } else {
                        row_text(row_of(self, i as int))
                    }),
            {
                proof {
                    assert(i * col + j < row * col) by (nonlinear_arith)
                        requires
                            (i as int) < (row as int),
                            (j as int) < (col as int),
                            0 <= i as int,
                            0 <= j as int,
                    ;
                }
                let txt = i64_text(self.data[i * col + j]);
                s.append(txt.as_str());
                proof {
                    let r = row_of(self, i as int);
                    lemma_row_text_step(r, j as int);
                    assert(r[j as int] == cell(self, i as int, j as int));
                }
                if j < col - 1 {
                    s.append(" ");
                    proof {
                        reveal_strlit(" ");
                        assert(" "@ =~= seq![' ']);
                        assert(s@ =~= s0 + row_text(
                            row_of(self, i as int).take(j as int + 1),
                        ) + seq![' ']);
                    }
                } else {
                    proof {
                        assert(row_of(self, i as int).take(j as int + 1) =~= row_of(
                            self,
                            i as int,
                        ));
                        assert(s@ =~= s0 + row_text(row_of(self, i as int)));
                    }
                }
            }
            proof {
                if col == 0 {
                    assert(row_text(row_of(self, i as int)) =~= Seq::<char>::empty());
                }
                assert(s@ =~= s0 + row_text(row_of(self, i as int)));
                lemma_rows_text_step(rows_of(self), i as int);
                assert(rows_of(self)[i as int] == row_of(self, i as int));
            }
            if i < row - 1 {
                s.append(", ");
                proof {
                    reveal_strlit(", ");
                    assert(", "@ =~= seq![',', ' ']);
                    assert(s@ =~= "Matrix<["@ + rows_text(rows_of(self).take(i as int + 1))
                        + seq![',', ' ']);
                }
            } else {
                proof {
                    assert(rows_of(self).take(i as int + 1) =~= rows_of(self));
                    assert(s@ =~= "Matrix<["@ + rows_text(rows_of(self)));
                }
            }
        }
        proof {
            if row == 0 {
                assert(rows_text(rows_of(self)) =~= Seq::<char>::empty());
            }
        }
        s.append("]>");
        proof {
            assert(s@ =~= render_spec(self));
        }
        s
    }
}

/// Row/column duality: the column view is the transpose of the row
/// view — entry `(i, j)` of the rows equals entry `(j, i)` of the
/// columns, and both equal the row-major buffer cell.
pub proof fn lemma_row_col_duality(m: &Matrix)
    ensures
        forall|i: int, j: int|
            0 <= i < m.row && 0 <= j < m.col ==> rows_of(m)[i][j] == cols_of(m)[j][i]
                && rows_of(m)[i][j] == cell(m, i, j),
{
}

} // verus!
