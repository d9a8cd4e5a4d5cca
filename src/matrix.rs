use vstd::prelude::*;
use crate::partition::partition;
use crate::model::{
    all_rows_have, cell_overflows, dot, fits_i32, fits_i64, is_grid, is_product_rows, rows_overflow,
    rows_view, valid_rows,
};

verus! {

/// The ways in which building or multiplying matrices fails.
#[derive(Debug, Clone, PartialEq, Eq)]
pub enum MatrixError {
    /// The row list is empty, or its rows differ in length.
    InvalidDimensions(String),
    /// The left operand's column count differs from the right operand's row count.
    DimensionMismatch(String),
    /// A worker failed to complete.
    ThreadError(String),
    /// A dot product left the range of `i64` while accumulating, or its sum
    /// does not fit in `i32`.
    Overflow,
}

/// A rectangular grid of `i32`, stored row by row. Every value of this type
/// has at least one row, and all its rows have the same length.
#[derive(Debug, Clone, PartialEq)]
pub struct Matrix {
    data: Vec<Vec<i32>>,
    rows: usize,
    cols: usize,
}

impl Matrix {
    /// The matrix is well formed: at least one row, and every row has
    /// `ncols()` elements.
    pub closed spec fn wf(&self) -> bool {
        &&& self.rows >= 1
        &&& self.data@.len() == self.rows
        &&& is_grid(self@, self.rows as nat, self.cols as nat)
    }

    /// The rows of the matrix.
    pub closed spec fn view(&self) -> Seq<Seq<i32>> {
        rows_view(self.data@)
    }

    /// The number of rows.
    pub closed spec fn nrows(&self) -> nat {
        self.rows as nat
    }

    /// The number of columns.
    pub closed spec fn ncols(&self) -> nat {
        self.cols as nat
    }

    /// Builds a matrix from its rows. Fails when there are no rows, or when a
    /// row's length differs from the first row's.
    pub fn new(data: Vec<Vec<i32>>) -> (r: Result<Matrix, MatrixError>)
        ensures
            r is Ok <==> valid_rows(rows_view(data@)),
            r is Err <==> (data@.len() == 0 || exists|i: int|
                0 <= i < data@.len() && (#[trigger] data@[i])@.len() != data@[0]@.len()),
            r is Ok ==> r->Ok_0.wf() && r->Ok_0@ == rows_view(data@) && r->Ok_0.nrows() == data@.len()
                && r->Ok_0.ncols() == data@[0]@.len(),
            r is Err ==> r->Err_0 is InvalidDimensions,
    {
        if data.len() == 0 {
            return Err(MatrixError::InvalidDimensions(String::from_str("Matrix cannot be empty")));
        }
        let rows = data.len();
        let cols = data[0].len();
        let mut i: usize = 0;
        while i < rows
            invariant
                rows == data@.len(),
                cols == data@[0]@.len(),
                0 <= i <= rows,
                forall|k: int| 0 <= k < i ==> (#[trigger] data@[k])@.len() == cols,
            decreases rows - i,
        {
            if data[i].len() != cols {
                assert(!valid_rows(rows_view(data@))) by {
                    assert(rows_view(data@)[i as int].len() != rows_view(data@)[0].len());
                }
                return Err(
                    MatrixError::InvalidDimensions(
                        String::from_str("All rows must have the same length"),
                    ),
                );
            }
            i = i + 1;
        }
        assert(is_grid(rows_view(data@), rows as nat, cols as nat));
        Ok(Matrix { data, rows, cols })
    }
}

/// A single product of two `i32` values always fits in `i64`.
proof fn lemma_product_fits_i64(x: i32, y: i32)
    ensures
        fits_i64(x * y),
{
    assert(-0x8000_0000 <= x <= 0x7fff_ffff && -0x8000_0000 <= y <= 0x7fff_ffff);
    assert(-0x4000_0000_0000_0000 <= x * y <= 0x4000_0000_0000_0000) by (nonlinear_arith)
        requires
            -0x8000_0000 <= x <= 0x7fff_ffff,
            -0x8000_0000 <= y <= 0x7fff_ffff,
    ;
}

/// Computes cell `(i, j)` of the product of `a` and `b` with inner dimension
/// `n`, accumulating in `i64` with checked operations. `None` means overflow.
fn dot_cell(a: &Vec<Vec<i32>>, b: &Vec<Vec<i32>>, i: usize, j: usize, n: usize) -> (r: Option<i32>)
    requires
        i < a@.len(),
        a@[i as int]@.len() == n,
        b@.len() == n,
        forall|k: int| 0 <= k < n ==> j < (#[trigger] b@[k])@.len(),
    ensures
        r is Some <==> !cell_overflows(rows_view(a@), rows_view(b@), i as int, j as int, n as nat),
        r is Some ==> r->0 as int == dot(rows_view(a@), rows_view(b@), i as int, j as int, n as nat),
{
    let ghost av = rows_view(a@);
    let ghost bv = rows_view(b@);
    let mut sum: i64 = 0;
    let mut k: usize = 0;
    while k < n
        invariant
            av == rows_view(a@),
            bv == rows_view(b@),
            i < a@.len(),
            a@[i as int]@.len() == n,
            b@.len() == n,
            forall|q: int| 0 <= q < n ==> j < (#[trigger] b@[q])@.len(),
            0 <= k <= n,
            sum as int == dot(av, bv, i as int, j as int, k as nat),
            forall|t: nat| 1 <= t <= k ==> fits_i64(#[trigger] dot(av, bv, i as int, j as int, t)),
        decreases n - k,
    {
        let x: i32 = a[i][k];
        let y: i32 = b[k][j];
        proof {
            lemma_product_fits_i64(x, y);
            assert(av[i as int][k as int] == x);
            assert(bv[k as int][j as int] == y);
        }
        let prod: i64 = match (x as i64).checked_mul(y as i64) {
            Some(v) => v,
            None => {
                return None;
            },
        };
        match sum.checked_add(prod) {
            Some(v) => {
                sum = v;
            },
            None => {
                assert(!fits_i64(dot(av, bv, i as int, j as int, (k + 1) as nat)));
                return None;
            },
        }
        k = k + 1;
    }
    if sum < i32::MIN as i64 || sum > i32::MAX as i64 {
        return None;
    }
    Some(sum as i32)
}

impl Matrix {
    /// Computes rows `start..end` of the product of `self` and `other`: the
    /// work of one worker. Each cell is accumulated in `i64` with checked
    /// operations and narrowed to `i32`; any overflow fails the whole chunk.
    pub fn compute_rows(&self, other: &Matrix, start: usize, end: usize) -> (r: Result<
        Vec<Vec<i32>>,
        MatrixError,
    >)
        requires
            self.wf(),
            other.wf(),
            self.ncols() == other.nrows(),
            start <= end <= self.nrows(),
        ensures
            r is Ok <==> !rows_overflow(
                self@,
                other@,
                start as int,
                end as int,
                self.ncols(),
                other.ncols(),
            ),
            r is Ok ==> is_product_rows(
                rows_view(r->Ok_0@),
                self@,
                other@,
                start as int,
                end as int,
                self.ncols(),
                other.ncols(),
            ),
            r is Err ==> r->Err_0 is Overflow,
    {
        let n = self.cols;
        let p = other.cols;
        let mut out: Vec<Vec<i32>> = Vec::new();
        let mut i: usize = start;
        while i < end
            invariant
                self.wf(),
                other.wf(),
                self.ncols() == other.nrows(),
                n == self.cols,
                p == other.cols,
                start <= i <= end <= self.nrows(),
                !rows_overflow(self@, other@, start as int, i as int, n as nat, p as nat),
                is_product_rows(rows_view(out@), self@, other@, start as int, i as int, n as nat, p as nat),
            decreases end - i,
        {
            let mut row: Vec<i32> = Vec::new();
            let mut j: usize = 0;
            while j < p
                invariant
                    self.wf(),
                    other.wf(),
                    self.ncols() == other.nrows(),
                    n == self.cols,
                    p == other.cols,
                    start <= i < end <= self.nrows(),
                    0 <= j <= p,
                    row@.len() == j,
                    forall|q: int| 0 <= q < j ==> !cell_overflows(self@, other@, i as int, q, n as nat),
                    forall|q: int| 0 <= q < j ==> #[trigger] row@[q] as int == dot(self@, other@, i as int, q, n as nat),
                decreases p - j,
            {
                proof {
                    assert(self@[i as int].len() == n);
                    assert forall|k: int| 0 <= k < n implies j < (#[trigger] other.data@[k])@.len() by {
                        assert(other@[k].len() == p);
                    }
                }
                match dot_cell(&self.data, &other.data, i, j, n) {
                    Some(v) => {
                        row.push(v);
                    },
                    None => {
                        assert(rows_overflow(self@, other@, start as int, end as int, n as nat, p as nat)) by {
                            assert(cell_overflows(self@, other@, i as int, j as int, n as nat));
                        }
                        return Err(MatrixError::Overflow);
                    },
                }
                j = j + 1;
            }
            let ghost before = rows_view(out@);
            out.push(row);
            proof {
                assert(rows_view(out@) == before.push(row@));
                assert forall|a: int, b: int|
                    start <= a < i + 1 && 0 <= b < p implies !#[trigger] cell_overflows(
                    self@,
                    other@,
                    a,
                    b,
                    n as nat,
                ) by {
                    if a < i {
                        assert(!rows_overflow(self@, other@, start as int, i as int, n as nat, p as nat));
                    }
                }
            }
            i = i + 1;
        }
        Ok(out)
    }
}

/// The outcome of one worker: the rows it computed, or its error.
pub type Part = Result<Vec<Vec<i32>>, MatrixError>;

/// Parts `0..k` all succeeded.
pub open spec fn all_ok(parts: Seq<Part>, k: int) -> bool {
    forall|q: int| 0 <= q < k ==> (#[trigger] parts[q]) is Ok
}

/// The rows of parts `0..k`, one part after another.
pub open spec fn joined(parts: Seq<Part>, k: nat) -> Seq<Seq<i32>>
    decreases k,
{
    if k == 0 {
        Seq::empty()
    } else {
        joined(parts, (k - 1) as nat) + rows_view(parts[k - 1]->Ok_0@)
    }
}

/// What multiplying `a` by `b` gives: `DimensionMismatch` when the shapes do
/// not fit, else `Overflow` when some cell overflows, else the product,
/// an `a.nrows()` by `b.ncols()` matrix. Nothing here depends on how the
/// rows were shared among workers.
pub open spec fn multiply_outcome(a: Matrix, b: Matrix, r: Result<Matrix, MatrixError>) -> bool {
    if a.ncols() != b.nrows() {
        r is Err && r->Err_0 is DimensionMismatch
    } else if rows_overflow(a@, b@, 0, a.nrows() as int, a.ncols(), b.ncols()) {
        r is Err && r->Err_0 is Overflow
    } else {
        &&& r is Ok
        &&& r->Ok_0.wf()
        &&& r->Ok_0.nrows() == a.nrows()
        &&& r->Ok_0.ncols() == b.ncols()
        &&& is_product_rows(r->Ok_0@, a@, b@, 0, a.nrows() as int, a.ncols(), b.ncols())
    }
}

proof fn lemma_rows_view_append(x: Seq<Vec<i32>>, y: Seq<Vec<i32>>)
    ensures
        rows_view(x + y) == rows_view(x) + rows_view(y),
{
    assert(rows_view(x + y) =~= rows_view(x) + rows_view(y));
}

proof fn lemma_joined_prefix(p1: Seq<Part>, p2: Seq<Part>, k: nat)
    requires
        k <= p1.len(),
        k <= p2.len(),
        forall|q: int| 0 <= q < k ==> p1[q] == p2[q],
    ensures
        joined(p1, k) == joined(p2, k),
    decreases k,
{
    if k > 0 {
        lemma_joined_prefix(p1, p2, (k - 1) as nat);
    }
}

proof fn lemma_product_rows_concat(
    x: Seq<Seq<i32>>,
    y: Seq<Seq<i32>>,
    a: Seq<Seq<i32>>,
    b: Seq<Seq<i32>>,
    lo: int,
    mid: int,
    hi: int,
    n: nat,
    p: nat,
)
    requires
        is_product_rows(x, a, b, lo, mid, n, p),
        is_product_rows(y, a, b, mid, hi, n, p),
    ensures
        is_product_rows(x + y, a, b, lo, hi, n, p),
{
    let z = x + y;
    assert forall|r: int| 0 <= r < z.len() implies (#[trigger] z[r]).len() == p by {
        if r < x.len() {
            assert(z[r] == x[r]);
        } else {
            assert(z[r] == y[r - x.len()]);
        }
    }
    assert forall|r: int, j: int| 0 <= r < z.len() && 0 <= j < p implies #[trigger] z[r][j] as int
        == dot(a, b, lo + r, j, n) by {
        if r < x.len() {
            assert(z[r] == x[r]);
        } else {
            assert(z[r] == y[r - x.len()]);
            assert(y[r - x.len()][j] as int == dot(a, b, mid + (r - x.len()), j, n));
        }
    }
}

/// Relies on std's `format!`, to write the text of a shape mismatch.
#[verifier::external_body]
fn mismatch_message(r1: usize, c1: usize, r2: usize, c2: usize) -> (s: String) {
    format!("Cannot multiply {}x{} matrix with {}x{} matrix", r1, c1, r2, c2)
}

/// Joins the outcomes of the workers, in the order in which they were
/// started. The first error among them is the result; when there is none,
/// their rows, one part after another, are built into a matrix.
#[verifier::loop_isolation(false)]
pub fn assemble(parts: Vec<Part>) -> (r: Result<Matrix, MatrixError>)
    ensures
        forall|q: int|
            0 <= q < parts@.len() && (#[trigger] parts@[q]) is Err && all_ok(parts@, q) ==> r
                == Err::<Matrix, MatrixError>(parts@[q]->Err_0),
        all_ok(parts@, parts@.len() as int) ==> (r is Ok <==> valid_rows(
            joined(parts@, parts@.len()),
        )),
        all_ok(parts@, parts@.len() as int) && r is Ok ==> ({
            let g = joined(parts@, parts@.len());
            &&& r->Ok_0.wf()
            &&& r->Ok_0@ == g
            &&& r->Ok_0.nrows() == g.len()
            &&& r->Ok_0.ncols() == g[0].len()
        }),
        all_ok(parts@, parts@.len() as int) && r is Err ==> r->Err_0 is InvalidDimensions,
{
    let ghost orig = parts@;
    let n = parts.len();
    let mut rest = parts;
    let mut acc: Vec<Vec<i32>> = Vec::new();
    let mut k: usize = 0;
    while k < n
        invariant
            n == orig.len(),
            0 <= k <= n,
            rest@ == orig.subrange(k as int, n as int),
            all_ok(orig, k as int),
            rows_view(acc@) == joined(orig, k as nat),
        decreases n - k,
    {
        let part = rest.remove(0);
        assert(part == orig[k as int]);
        match part {
            Ok(mut rows) => {
                let ghost before = acc@;
                acc.append(&mut rows);
                proof {
                    lemma_rows_view_append(before, orig[k as int]->Ok_0@);
                }
            },
            Err(e) => {
                assert forall|q: int|
                    0 <= q < orig.len() && (#[trigger] orig[q]) is Err && all_ok(orig, q) implies q
                    == k by {
                    if q > k {
                        assert(orig[k as int] is Ok);
                    }
                }
                assert(!all_ok(orig, n as int)) by {
                    assert(orig[k as int] is Err);
                }
                assert(e == orig[k as int]->Err_0);
                return Err(e);
            },
        }
        k = k + 1;
    }
    Matrix::new(acc)
}

impl Matrix {
    /// Multiplies `self` by `other`, sharing the rows of `self` among
    /// `workers` workers by `partition`; their outcomes are joined by
    /// `assemble`. The result does not depend on `workers`.
    pub fn multiply_with_workers(&self, other: &Matrix, workers: usize) -> (r: Result<
        Matrix,
        MatrixError,
    >)
        requires
            self.wf(),
            other.wf(),
            workers >= 1,
        ensures
            multiply_outcome(*self, *other, r),
            (r is Err && r->Err_0 is DimensionMismatch) <==> self.ncols() != other.nrows(),
            (r is Err && r->Err_0 is Overflow) <==> (self.ncols() == other.nrows() && rows_overflow(
                self@,
                other@,
                0,
                self.nrows() as int,
                self.ncols(),
                other.ncols(),
            )),
            r is Ok <==> (self.ncols() == other.nrows() && !rows_overflow(
                self@,
                other@,
                0,
                self.nrows() as int,
                self.ncols(),
                other.ncols(),
            )),
            r is Ok ==> r->Ok_0.nrows() == self.nrows() && r->Ok_0.ncols() == other.ncols(),
    {
        if self.cols != other.rows {
            return Err(
                MatrixError::DimensionMismatch(
                    mismatch_message(self.rows, self.cols, other.rows, other.cols),
                ),
            );
        }
        let ghost a = self@;
        let ghost b = other@;
        let ghost m = self.rows as int;
        let ghost n = self.cols as nat;
        let ghost p = other.cols as nat;
        let chunks = partition(self.rows, workers);
        let mut parts: Vec<Part> = Vec::new();
        let ghost mut ok_so_far = true;
        let ghost mut fe: int = 0;
        let mut k: usize = 0;
        while k < chunks.len()
            invariant
                self.wf(),
                other.wf(),
                self.ncols() == other.nrows(),
                a == self@,
                b == other@,
                m == self.nrows(),
                n == self.ncols(),
                p == other.ncols(),
                chunks@.len() > 0,
                chunks@[0].0 == 0,
                chunks@[chunks@.len() - 1].1 == m,
                forall|q: int| 0 <= q < chunks@.len() ==> (#[trigger] chunks@[q]).0 < chunks@[q].1,
                forall|q: int|
                    0 <= q < chunks@.len() - 1 ==> (#[trigger] chunks@[q]).1 == chunks@[q + 1].0,
                0 <= k <= chunks@.len(),
                parts@.len() == k,
                ok_so_far == all_ok(parts@, k as int),
                ok_so_far ==> !rows_overflow(
                    a,
                    b,
                    0,
                    if k == 0 {
                        0
                    } else {
                        chunks@[k - 1].1 as int
                    },
                    n,
                    p,
                ),
                ok_so_far ==> is_product_rows(
                    joined(parts@, k as nat),
                    a,
                    b,
                    0,
                    if k == 0 {
                        0
                    } else {
                        chunks@[k - 1].1 as int
                    },
                    n,
                    p,
                ),
                !ok_so_far ==> 0 <= fe < k && parts@[fe] is Err && parts@[fe]->Err_0 is Overflow
                    && all_ok(parts@, fe),
                !ok_so_far ==> rows_overflow(a, b, 0, m, n, p),
            decreases chunks@.len() - k,
        {
            let (s, e) = chunks[k];
            proof {
                if k > 0 {
                    assert(chunks@[k - 1].1 == chunks@[k as int].0);
                }
                assert(e <= m) by {
                    if e > m {
                        assert forall|q: int| k <= q < chunks@.len() implies (#[trigger] chunks@[q]).1
                            > m by {
                            lemma_chunks_increase(chunks@, k as int, q);
                        }
                    }
                }
            }
            let part = self.compute_rows(other, s, e);
            let ghost old_parts = parts@;
            parts.push(part);
            proof {
                assert(parts@[k as int] == part);
                assert forall|q: int| 0 <= q < k implies parts@[q] == old_parts[q] by {}
                if ok_so_far {
                    if part is Ok {
                        lemma_joined_prefix(parts@, old_parts, k as nat);
                        lemma_product_rows_concat(
                            joined(old_parts, k as nat),
                            rows_view(part->Ok_0@),
                            a,
                            b,
                            0,
                            s as int,
                            e as int,
                            n,
                            p,
                        );
                        assert forall|i: int, j: int|
                            0 <= i < e && 0 <= j < p implies !#[trigger] cell_overflows(
                            a,
                            b,
                            i,
                            j,
                            n,
                        ) by {
                            if i >= s {
                                assert(!rows_overflow(a, b, s as int, e as int, n, p));
                            }
                        }
                    } else {
                        fe = k as int;
                        let (i, j) = choose|i: int, j: int|
                            s <= i < e && 0 <= j < p && #[trigger] cell_overflows(a, b, i, j, n);
                        assert(cell_overflows(a, b, i, j, n));
                    }
                    ok_so_far = part is Ok;
                }
            }
            k = k + 1;
        }
        let ghost fin = parts@;
        let r = assemble(parts);
        proof {
            if ok_so_far {
                assert(valid_rows(joined(fin, fin.len())));
            }
        }
        r
    }
}

/// Along a contiguous partition, chunk ends grow.
proof fn lemma_chunks_increase(chunks: Seq<(usize, usize)>, k: int, q: int)
    requires
        0 <= k <= q < chunks.len(),
        forall|x: int| 0 <= x < chunks.len() ==> (#[trigger] chunks[x]).0 < chunks[x].1,
        forall|x: int| 0 <= x < chunks.len() - 1 ==> (#[trigger] chunks[x]).1 == chunks[x + 1].0,
    ensures
        chunks[k].1 <= chunks[q].1,
    decreases q - k,
{
    if k < q {
        lemma_chunks_increase(chunks, k + 1, q);
        assert(chunks[k].1 == chunks[k + 1].0);
    }
}

/// The Debug text of a row of integers (`[1, 2, 3]`), followed by a newline.
pub uninterp spec fn row_line(row: Seq<i32>) -> Seq<char>;

/// The text of a grid: the line of each row, in order.
pub open spec fn grid_text(g: Seq<Seq<i32>>) -> Seq<char>
    decreases g.len(),
{
    if g.len() == 0 {
        Seq::empty()
    } else {
        grid_text(g.drop_last()) + row_line(g.last())
    }
}

/// Relies on std's `format!` with `{:?}` on a `Vec<i32>`: the Debug text of
/// the row, which depends on its elements alone, and a newline after it.
#[verifier::external_body]
fn debug_line(row: &Vec<i32>) -> (r: String)
    ensures
        r@ == row_line(row@),
{
    format!("{:?}\n", row)
}

impl Matrix {
    /// Multiplies `self` by `other`. The rows of `self` are taken as one
    /// chunk in the calling thread; since the outcome does not depend on the
    /// partition, it equals that of any number of workers.
    pub fn multiply(&self, other: &Matrix) -> (r: Result<Matrix, MatrixError>)
        requires
            self.wf(),
            other.wf(),
        ensures
            multiply_outcome(*self, *other, r),
            (r is Err && r->Err_0 is DimensionMismatch) <==> self.ncols() != other.nrows(),
            (r is Err && r->Err_0 is Overflow) <==> (self.ncols() == other.nrows() && rows_overflow(
                self@,
                other@,
                0,
                self.nrows() as int,
                self.ncols(),
                other.ncols(),
            )),
            r is Ok <==> (self.ncols() == other.nrows() && !rows_overflow(
                self@,
                other@,
                0,
                self.nrows() as int,
                self.ncols(),
                other.ncols(),
            )),
            r is Ok ==> r->Ok_0.nrows() == self.nrows() && r->Ok_0.ncols() == other.ncols(),
    {
        self.multiply_with_workers(other, 1)
    }

    /// The element at `row`, `col`, or `None` when either is out of range.
    pub fn get(&self, row: usize, col: usize) -> (r: Option<i32>)
        requires
            self.wf(),
        ensures
            r == if row < self.nrows() && col < self.ncols() {
                Some(self@[row as int][col as int])
            } else {
                None::<i32>
            },
    {
        if row < self.rows && col < self.cols {
            assert(self@[row as int].len() == self.cols);
            Some(self.data[row][col])
        } else {
            None
        }
    }

    /// The number of rows.
    pub fn rows(&self) -> (r: usize)
        ensures
            r == self.nrows(),
    {
        self.rows
    }

    /// The number of columns.
    pub fn cols(&self) -> (r: usize)
        ensures
            r == self.ncols(),
    {
        self.cols
    }

    /// The rows of the matrix.
    pub fn data(&self) -> (r: &Vec<Vec<i32>>)
        ensures
            rows_view(r@) == self@,
    {
        &self.data
    }

    /// The matrix as text: one line per row, each row written as a list.
    pub fn render(&self) -> (r: String)
        ensures
            r@ == grid_text(self@),
    {
        let mut out = String::new();
        let mut i: usize = 0;
        while i < self.data.len()
            invariant
                0 <= i <= self.data@.len(),
                out@ == grid_text(self@.subrange(0, i as int)),
            decreases self.data@.len() - i,
        {
            let line = debug_line(&self.data[i]);
            let ghost g = self@.subrange(0, i as int + 1);
            assert(g.drop_last() =~= self@.subrange(0, i as int));
            out.append(line.as_str());
            i = i + 1;
        }
        assert(self@.subrange(0, self@.len() as int) =~= self@);
        out
    }
}

/// The `n` by `n` identity grid.
pub open spec fn identity(n: nat) -> Seq<Seq<i32>> {
    Seq::new(n, |i: int| Seq::new(n, |j: int| if i == j { 1i32 } else { 0i32 }))
}

/// Against the identity, the running sum of cell `(i, j)` is zero until it
/// passes column `j`, and `a[i][j]` after.
proof fn lemma_dot_identity(a: Seq<Seq<i32>>, n: nat, i: int, j: int, t: nat)
    requires
        0 <= i < a.len(),
        a[i].len() == n,
        0 <= j < n,
        t <= n,
    ensures
        dot(a, identity(n), i, j, t) == if t > j {
            a[i][j] as int
        } else {
            0
        },
    decreases t,
{
    if t > 0 {
        lemma_dot_identity(a, n, i, j, (t - 1) as nat);
        let k = t - 1;
        assert(identity(n)[k][j] == if k == j { 1i32 } else { 0i32 });
        if k == j {
            assert(a[i][k] * 1 == a[i][k]);
        } else {
            assert(a[i][k] * 0 == 0);
        }
    }
}

/// A grid with `m` rows, times the identity of its width, never overflows
/// and gives the grid back.
pub proof fn lemma_identity_product(a: Seq<Seq<i32>>, m: nat, n: nat)
    requires
        is_grid(a, m, n),
    ensures
        !rows_overflow(a, identity(n), 0, m as int, n, n),
        forall|c: Seq<Seq<i32>>| is_product_rows(c, a, identity(n), 0, m as int, n, n) ==> c == a,
{
    assert forall|i: int, j: int| 0 <= i < m && 0 <= j < n implies !#[trigger] cell_overflows(
        a,
        identity(n),
        i,
        j,
        n,
    ) by {
        assert(a[i].len() == n);
        assert forall|t: nat| 1 <= t <= n implies fits_i64(#[trigger] dot(a, identity(n), i, j, t)) by {
            lemma_dot_identity(a, n, i, j, t);
        }
        lemma_dot_identity(a, n, i, j, n);
    }
    assert forall|c: Seq<Seq<i32>>| is_product_rows(c, a, identity(n), 0, m as int, n, n) implies c
        == a by {
        assert forall|r: int| 0 <= r < m implies (#[trigger] c[r]) =~= a[r] by {
            assert(a[r].len() == n);
            assert forall|j: int| 0 <= j < n implies c[r][j] == a[r][j] by {
                lemma_dot_identity(a, n, r, j, n);
                assert(c[r][j] as int == dot(a, identity(n), 0 + r, j, n));
            }
        }
        assert(c =~= a);
    }
}

/// Multiplying a matrix by the identity of its width succeeds and gives a
/// matrix equal to it, element by element.
pub proof fn lemma_multiply_identity(a: Matrix, id: Matrix, r: Result<Matrix, MatrixError>)
    requires
        a.wf(),
        id.wf(),
        id@ == identity(a.ncols()),
        multiply_outcome(a, id, r),
    ensures
        r is Ok,
        r->Ok_0@ == a@,
        r->Ok_0.nrows() == a.nrows(),
        r->Ok_0.ncols() == a.ncols(),
{
    let n = a.ncols();
    assert(id.nrows() == n);
    assert(id@[0].len() == id.ncols());
    assert(identity(n)[0].len() == n);
    lemma_identity_product(a@, a.nrows(), n);
    assert(is_product_rows(r->Ok_0@, a@, id@, 0, a.nrows() as int, n, n));
}

/// At most one grid holds the rows `lo..hi` of a product.
proof fn lemma_product_rows_unique(
    c1: Seq<Seq<i32>>,
    c2: Seq<Seq<i32>>,
    a: Seq<Seq<i32>>,
    b: Seq<Seq<i32>>,
    lo: int,
    hi: int,
    n: nat,
    p: nat,
)
    requires
        is_product_rows(c1, a, b, lo, hi, n, p),
        is_product_rows(c2, a, b, lo, hi, n, p),
    ensures
        c1 == c2,
{
    assert forall|r: int| 0 <= r < c1.len() implies (#[trigger] c1[r]) =~= c2[r] by {
        assert forall|j: int| 0 <= j < p implies c1[r][j] == c2[r][j] by {
            assert(c1[r][j] as int == dot(a, b, lo + r, j, n));
            assert(c2[r][j] as int == dot(a, b, lo + r, j, n));
        }
    }
    assert(c1 =~= c2);
}

/// Two outcomes of multiplying the same matrices, however their rows were
/// shared among workers, agree: both succeed with equal matrices, or both
/// fail with the same kind of error.
pub proof fn lemma_partition_invariance(
    a: Matrix,
    b: Matrix,
    r1: Result<Matrix, MatrixError>,
    r2: Result<Matrix, MatrixError>,
)
    requires
        multiply_outcome(a, b, r1),
        multiply_outcome(a, b, r2),
    ensures
        r1 is Ok <==> r2 is Ok,
        r1 is Ok ==> r1->Ok_0@ == r2->Ok_0@ && r1->Ok_0.nrows() == r2->Ok_0.nrows()
            && r1->Ok_0.ncols() == r2->Ok_0.ncols(),
        r1 is Err ==> (r1->Err_0 is DimensionMismatch <==> r2->Err_0 is DimensionMismatch),
        r1 is Err ==> (r1->Err_0 is Overflow <==> r2->Err_0 is Overflow),
{
    if r1 is Ok {
        lemma_product_rows_unique(
            r1->Ok_0@,
            r2->Ok_0@,
            a@,
            b@,
            0,
            a.nrows() as int,
            a.ncols(),
            b.ncols(),
        );
    }
}

} // verus!
