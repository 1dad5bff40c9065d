//! The dense, row-major `i32` matrix and its mathematical model.

use crate::arith::{
    lemma_wrap_add_left, lemma_wrap_add_right, lemma_wrap_id, lemma_wrapping_add, lemma_wrapping_mul,
    lemma_wrapping_sub, wrap,
};
use crate::render::{cell_text, format_cell};
use vstd::arithmetic::div_mod::lemma_fundamental_div_mod_converse;
use vstd::prelude::*;

verus! {

/// The mathematical content of a matrix: its shape and its row-major cells.
pub struct MatrixView {
    pub rows: nat,
    pub cols: nat,
    pub data: Seq<i32>,
}

impl MatrixView {
    /// The cell buffer holds exactly one value per logical position.
    pub open spec fn wf(self) -> bool {
        self.data.len() == self.rows * self.cols
    }

    /// The cell at row `r`, column `c` (row-major layout).
    pub open spec fn at(self, r: int, c: int) -> i32 {
        self.data[r * self.cols + c]
    }

    /// Row `r`, in column order.
    pub open spec fn row(self, r: int) -> Seq<i32> {
        Seq::new(self.cols, |c: int| self.at(r, c))
    }

    /// Column `c`, in row order.
    pub open spec fn col(self, c: int) -> Seq<i32> {
        Seq::new(self.rows, |r: int| self.at(r, c))
    }

    /// The matrix as displayed: one line per row, each cell right-aligned.
    pub open spec fn text(self) -> Seq<char> {
        rows_text(self, self.rows)
    }

    pub open spec fn same_shape(self, other: MatrixView) -> bool {
        self.rows == other.rows && self.cols == other.cols
    }

    /// Cell `(r, c)` of the product with `other`: the wrapped dot product of
    /// row `r` of `self` and column `c` of `other`.
    pub open spec fn product_cell(self, other: MatrixView, r: int, c: int) -> i32 {
        wrap(dot(self.row(r), other.col(c), self.cols as int))
    }

    /// Cell-wise sum, with wrap-around.
    pub open spec fn plus(self, other: MatrixView) -> MatrixView {
        MatrixView {
            rows: self.rows,
            cols: self.cols,
            data: Seq::new(self.data.len(), |i: int| wrap(self.data[i] + other.data[i])),
        }
    }

    /// Cell-wise difference, with wrap-around.
    pub open spec fn minus(self, other: MatrixView) -> MatrixView {
        MatrixView {
            rows: self.rows,
            cols: self.cols,
            data: Seq::new(self.data.len(), |i: int| wrap(self.data[i] - other.data[i])),
        }
    }

    /// Every cell multiplied on the right by `k`, with wrap-around.
    pub open spec fn scaled(self, k: i32) -> MatrixView {
        MatrixView {
            rows: self.rows,
            cols: self.cols,
            data: Seq::new(self.data.len(), |i: int| wrap(self.data[i] * k)),
        }
    }

    /// The matrix product `self × other`, with wrap-around on every cell.
    pub open spec fn times(self, other: MatrixView) -> MatrixView {
        MatrixView {
            rows: self.rows,
            cols: other.cols,
            data: Seq::new(
                self.rows * other.cols,
                |i: int| self.product_cell(other, i / other.cols as int, i % other.cols as int),
            ),
        }
    }
}

/// The displayed cells of `s`, in order.
pub open spec fn cells_text(s: Seq<i32>) -> Seq<char>
    decreases s.len(),
{
    if s.len() == 0 {
        Seq::empty()
    } else {
        cells_text(s.drop_last()) + cell_text(s.last())
    }
}

/// The first `k` rows of `m` as displayed, each ended by a line break.
pub open spec fn rows_text(m: MatrixView, k: nat) -> Seq<char>
    decreases k,
{
    if k == 0 {
        Seq::empty()
    } else {
        rows_text(m, (k - 1) as nat) + cells_text(m.row(k - 1)) + seq!['\n']
    }
}

/// Every cell of `m` multiplied on the left by `k`, with wrap-around.
pub open spec fn scaled_left(k: i32, m: MatrixView) -> MatrixView {
    MatrixView {
        rows: m.rows,
        cols: m.cols,
        data: Seq::new(m.data.len(), |i: int| wrap(k * m.data[i])),
    }
}

/// A matrix built over a buffer of the right length reads back, at each
/// position `(r, c)` inside it, the buffer's element `r * cols + c`.
pub proof fn lemma_built_cells(cols: nat, rows: nat, data: Seq<i32>)
    requires
        data.len() == cols * rows,
    ensures
        ({
            let m = MatrixView { rows, cols, data };
            &&& m.wf()
            &&& forall|r: int, c: int|
                0 <= r < rows && 0 <= c < cols ==> #[trigger] m.at(r, c) == data[r * cols + c]
        }),
{
    assert(cols * rows == rows * cols) by (nonlinear_arith);
}

/// Subtracting what was added gives back the left operand: for matrices
/// of one shape, `(a + b) - b == a`, wrap-around included.
pub proof fn lemma_add_then_subtract(a: MatrixView, b: MatrixView)
    requires
        a.wf(),
        b.wf(),
        a.same_shape(b),
    ensures
        a.plus(b).minus(b) == a,
{
    let s = a.plus(b).minus(b);
    assert forall|i: int| 0 <= i < a.data.len() implies s.data[i] == a.data[i] by {
        lemma_wrap_add_left(a.data[i] + b.data[i], -b.data[i]);
        assert(a.data[i] + b.data[i] + -b.data[i] == a.data[i]);
        lemma_wrap_id(a.data[i] as int);
    }
    assert(s.data =~= a.data);
}

/// Scaling on the left and on the right agree: `k * m == m * k`.
pub proof fn lemma_scale_commutes(k: i32, m: MatrixView)
    ensures
        scaled_left(k, m) == m.scaled(k),
{
    assert forall|i: int| 0 <= i < m.data.len() implies k * m.data[i] == m.data[i] * k by {
        assert(k * m.data[i] == m.data[i] * k) by (nonlinear_arith);
    }
    assert(scaled_left(k, m).data =~= m.scaled(k).data);
}

/// Upper bound on the number of threads that one product runs.
pub const MAX_TASKS: usize = 8;

/// The point where block `j` of a chain of row blocks starts.
pub open spec fn chain_point(blocks: Seq<(usize, usize)>, j: int) -> int {
    if j <= 0 {
        0
    } else {
        blocks[j - 1].1 as int
    }
}

/// `blocks` are non-empty, consecutive ranges that cover `0..end`, inside `0..rows`.
pub open spec fn block_chain(blocks: Seq<(usize, usize)>, end: int, rows: int) -> bool {
    &&& chain_point(blocks, blocks.len() as int) == end
    &&& forall|j: int|
        0 <= j < blocks.len() ==> {
            &&& (#[trigger] blocks[j]).0 == chain_point(blocks, j)
            &&& blocks[j].0 < blocks[j].1 <= rows
        }
}

/// Splits `0..rows` into at most `MAX_TASKS` consecutive blocks of at most
/// `rows / MAX_TASKS + 1` rows each.
fn row_blocks(rows: usize) -> (blocks: Vec<(usize, usize)>)
    ensures
        block_chain(blocks@, rows as int, rows as int),
        blocks@.len() <= MAX_TASKS,
{
    let size = rows / MAX_TASKS + 1;
    let mut blocks: Vec<(usize, usize)> = Vec::new();
    let mut start: usize = 0;
    while start < rows
        invariant
            size == rows / MAX_TASKS + 1,
            start <= rows,
            block_chain(blocks@, start as int, rows as int),
            start == rows || start == blocks@.len() * size,
            blocks@.len() == 0 || (blocks@.len() - 1) * size < start,
        decreases rows - start,
    {
        let end = if rows - start < size { rows } else { start + size };
        proof {
            let len = blocks@.len() as int;
            assert((len + 1) * size == len * size + size) by (nonlinear_arith);
        }
        blocks.push((start, end));
        start = end;
    }
    proof {
        let len = blocks@.len() as int;
        if len > 0 {
            assert(rows < MAX_TASKS * size) by (nonlinear_arith)
                requires
                    size == rows / MAX_TASKS + 1,
                    MAX_TASKS == 8,
            ;
            assert(len <= MAX_TASKS) by (nonlinear_arith)
                requires
                    (len - 1) * size < rows,
                    rows < MAX_TASKS * size,
                    size >= 1,
                    MAX_TASKS == 8,
            ;
        }
    }
    blocks
}

/// Joins consecutive slices of `full`, cut at `cuts`, back into `full`.
fn concat_blocks(parts: &Vec<Vec<i32>>, full: Ghost<Seq<i32>>, cuts: Ghost<Seq<int>>) -> (data: Vec<i32>)
    requires
        cuts@.len() == parts@.len() + 1,
        cuts@[0] == 0,
        cuts@[parts@.len() as int] == full@.len(),
        forall|i: int|
            0 <= i < parts@.len() ==> 0 <= #[trigger] cuts@[i] <= cuts@[i + 1] <= full@.len(),
        forall|i: int|
            0 <= i < parts@.len() ==> (#[trigger] parts@[i])@ == full@.subrange(cuts@[i], cuts@[i + 1]),
    ensures
        data@ == full@,
{
    let mut data: Vec<i32> = Vec::new();
    let mut j: usize = 0;
    while j < parts.len()
        invariant
            cuts@.len() == parts@.len() + 1,
            cuts@[parts@.len() as int] == full@.len(),
            forall|i: int|
                0 <= i < parts@.len() ==> 0 <= #[trigger] cuts@[i] <= cuts@[i + 1] <= full@.len(),
            forall|i: int|
                0 <= i < parts@.len() ==> (#[trigger] parts@[i])@ == full@.subrange(cuts@[i], cuts@[i + 1]),
            j <= parts@.len(),
            data@ == full@.subrange(0, cuts@[j as int]),
        decreases parts@.len() - j,
    {
        let part = &parts[j];
        let ghost before = data@;
        let ghost lo = cuts@[j as int];
        let ghost hi = cuts@[j + 1];
        let mut k: usize = 0;
        while k < part.len()
            invariant
                0 <= lo <= hi <= full@.len(),
                part@ == full@.subrange(lo, hi),
                before == full@.subrange(0, lo),
                k <= part@.len(),
                data@ == before + part@.subrange(0, k as int),
            decreases part@.len() - k,
        {
            proof {
                assert(part@.subrange(0, k + 1) =~= part@.subrange(0, k as int).push(part@[k as int]));
            }
            data.push(part[k]);
            k = k + 1;
        }
        proof {
            assert(part@.subrange(0, part@.len() as int) =~= part@);
            assert(data@ =~= full@.subrange(0, hi));
        }
        j = j + 1;
    }
    proof {
        assert(data@ =~= full@);
    }
    data
}

/// The cut points, in cells, of a chain of row blocks of an `n`-column buffer.
proof fn lemma_block_cuts(blocks: Seq<(usize, usize)>, rows: int, n: int) -> (cuts: Seq<int>)
    requires
        n >= 0,
        block_chain(blocks, rows, rows),
    ensures
        cuts.len() == blocks.len() + 1,
        cuts[0] == 0,
        cuts[blocks.len() as int] == rows * n,
        forall|i: int|
            0 <= i < blocks.len() ==> {
                &&& 0 <= cuts[i] <= cuts[i + 1] <= rows * n
                &&& cuts[i] == (#[trigger] blocks[i]).0 * n
                &&& cuts[i + 1] == blocks[i].1 * n
            },
{
    let cuts = Seq::new((blocks.len() + 1) as nat, |i: int| chain_point(blocks, i) * n);
    assert forall|i: int| 0 <= i < blocks.len() implies {
        &&& 0 <= cuts[i] <= cuts[i + 1] <= rows * n
        &&& cuts[i] == (#[trigger] blocks[i]).0 * n
        &&& cuts[i + 1] == blocks[i].1 * n
    } by {
        let a = blocks[i].0 as int;
        let b = blocks[i].1 as int;
        assert(0 <= a * n <= b * n <= rows * n) by (nonlinear_arith)
            requires
                0 <= a <= b <= rows,
                n >= 0,
        ;
    }
    cuts
}

/// Relies on `crossbeam::scope`: each spawned task runs on its own thread,
/// the scope returns only after every task has been joined, and `join` hands
/// back the value that the task's closure returned. Each task computes one
/// block of rows with `Matrix::product_rows`.
#[verifier::external_body]
fn run_row_blocks(lhs: &Matrix, rhs: &Matrix, blocks: &Vec<(usize, usize)>) -> (parts: Vec<Vec<i32>>)
    requires
        lhs@.cols == rhs@.rows,
        lhs@.rows * rhs@.cols <= usize::MAX,
        forall|j: int| 0 <= j < blocks@.len() ==> (#[trigger] blocks@[j]).0 <= blocks@[j].1 <= lhs@.rows,
    ensures
        parts@.len() == blocks@.len(),
        forall|j: int|
            0 <= j < blocks@.len() ==> (#[trigger] parts@[j])@ == lhs@.times(rhs@).data.subrange(
                blocks@[j].0 * rhs@.cols as int,
                blocks@[j].1 * rhs@.cols as int,
            ),
{
    crossbeam::scope(|s| {
        let tasks: Vec<_> = blocks
            .iter()
            .map(|&(start, end)| s.spawn(move |_| lhs.product_rows(rhs, start, end)))
            .collect();
        tasks.into_iter().map(|t| t.join().unwrap()).collect()
    })
    .unwrap()
}

/// `a[0] * b[0] + ... + a[n - 1] * b[n - 1]`, exactly.
pub open spec fn dot(a: Seq<i32>, b: Seq<i32>, n: int) -> int
    decreases n,
{
    if n <= 0 {
        0
    } else {
        dot(a, b, n - 1) + a[n - 1] * b[n - 1]
    }
}

/// Position `(r, c)` of a `rows` by `cols` grid lies inside its row-major buffer.
proof fn lemma_cell_index(r: int, c: int, rows: int, cols: int)
    requires
        0 <= r < rows,
        0 <= c < cols,
    ensures
        0 <= r * cols + c < rows * cols,
        (r * cols + c) / cols == r,
        (r * cols + c) % cols == c,
{
    assert(0 <= r * cols) by (nonlinear_arith)
        requires
            0 <= r,
            0 <= c < cols,
    ;
    assert(r * cols + c < rows * cols) by (nonlinear_arith)
        requires
            0 <= r < rows,
            0 <= c < cols,
    ;
    lemma_fundamental_div_mod_converse(r * cols + c, cols, r, c);
}

/// Why a checked matrix access or construction was refused.
#[derive(Debug, Clone, Copy, PartialEq, Eq, Structural)]
pub enum MatrixError {
    /// The buffer length is not `rows * cols`.
    LengthMismatch,
    /// A row index is not below the number of rows.
    RowOutOfBounds,
    /// A column index is not below the number of columns.
    ColOutOfBounds,
}

/// A dense matrix of `i32`, stored row-major.
#[derive(Debug)]
pub struct Matrix {
    rows: usize,
    cols: usize,
    data: Vec<i32>,
}

impl View for Matrix {
    type V = MatrixView;

    closed spec fn view(&self) -> MatrixView {
        MatrixView { rows: self.rows as nat, cols: self.cols as nat, data: self.data@ }
    }
}

impl Matrix {
    #[verifier::type_invariant]
    spec fn inv(&self) -> bool {
        self.data.len() == self.rows * self.cols
    }

    /// Builds a `rows` by `cols` matrix over the given row-major buffer.
    pub fn new(cols: usize, rows: usize, data: Vec<i32>) -> (m: Matrix)
        requires
            data@.len() == cols * rows,
        ensures
            m@ == (MatrixView { rows: rows as nat, cols: cols as nat, data: data@ }),
            m@.wf(),
    {
        assert(cols * rows == rows * cols) by (nonlinear_arith);
        Matrix { cols, rows, data }
    }

    /// Builds a matrix, refusing a buffer whose length is not `cols * rows`.
    pub fn try_new(cols: usize, rows: usize, data: Vec<i32>) -> (r: Result<Matrix, MatrixError>)
        ensures
            data@.len() == cols * rows <==> r is Ok,
            r matches Ok(m) ==> m@ == (MatrixView {
                rows: rows as nat,
                cols: cols as nat,
                data: data@,
            }),
            r matches Err(e) ==> e == MatrixError::LengthMismatch,
    {
        let len = data.len();
        match cols.checked_mul(rows) {
            Some(n) => {
                if n == len {
                    Ok(Matrix::new(cols, rows, data))
                } else {
                    Err(MatrixError::LengthMismatch)
                }
            },
            None => Err(MatrixError::LengthMismatch),
        }
    }

    /// The number of columns.
    pub fn cols(&self) -> (c: usize)
        ensures
            c == self@.cols,
    {
        self.cols
    }

    /// The number of rows.
    pub fn rows(&self) -> (r: usize)
        ensures
            r == self@.rows,
    {
        self.rows
    }

    /// The row-major cell buffer.
    pub fn data(&self) -> (d: &[i32])
        ensures
            d@ == self@.data,
    {
        self.data.as_slice()
    }

    /// Reads cell `(r, c)`, refusing an index outside the matrix.
    pub fn get(&self, r: usize, c: usize) -> (v: Result<i32, MatrixError>)
        ensures
            r >= self@.rows ==> v == Err::<i32, MatrixError>(MatrixError::RowOutOfBounds),
            r < self@.rows && c >= self@.cols ==> v == Err::<i32, MatrixError>(
                MatrixError::ColOutOfBounds,
            ),
            r < self@.rows && c < self@.cols ==> v == Ok::<i32, MatrixError>(
                self@.at(r as int, c as int),
            ),
    {
        proof {
            use_type_invariant(self);
        }
        if r >= self.rows {
            return Err(MatrixError::RowOutOfBounds);
        }
        if c >= self.cols {
            return Err(MatrixError::ColOutOfBounds);
        }
        proof {
            lemma_cell_index(r as int, c as int, self@.rows as int, self@.cols as int);
        }
        Ok(self.data[r * self.cols + c])
    }

    /// Overwrites cell `(r, c)` with `value`, refusing an index outside the
    /// matrix; a refused write changes nothing.
    pub fn set(&mut self, r: usize, c: usize, value: i32) -> (res: Result<(), MatrixError>)
        ensures
            r >= old(self)@.rows ==> res == Err::<(), MatrixError>(MatrixError::RowOutOfBounds),
            r < old(self)@.rows && c >= old(self)@.cols ==> res == Err::<(), MatrixError>(
                MatrixError::ColOutOfBounds,
            ),
            res is Err ==> final(self)@ == old(self)@,
            res is Ok <==> r < old(self)@.rows && c < old(self)@.cols,
            res is Ok ==> final(self)@ == (MatrixView {
                data: old(self)@.data.update(r * old(self)@.cols + c, value),
                ..old(self)@
            }),
    {
        proof {
            use_type_invariant(&*self);
        }
        if r >= self.rows {
            return Err(MatrixError::RowOutOfBounds);
        }
        if c >= self.cols {
            return Err(MatrixError::ColOutOfBounds);
        }
        proof {
            lemma_cell_index(r as int, c as int, self@.rows as int, self@.cols as int);
        }
        let i = r * self.cols + c;
        let mut taken = Matrix::new(0, 0, Vec::new());
        std::mem::swap(self, &mut taken);
        let Matrix { rows, cols, mut data } = taken;
        data.set(i, value);
        *self = Matrix { rows, cols, data };
        Ok(())
    }

    /// The cells of row `row_num`, in column order.
    pub fn row_iter(&self, row_num: usize) -> (out: Vec<i32>)
        requires
            row_num < self@.rows,
        ensures
            out@ == self@.row(row_num as int),
    {
        proof {
            use_type_invariant(self);
        }
        let n = self.cols;
        let len = self.data.len();
        let mut out: Vec<i32> = Vec::new();
        let mut c: usize = 0;
        while c < n
            invariant
                n == self@.cols,
                row_num < self@.rows,
                len == self.data@.len() == self@.rows * self@.cols,
                c <= n,
                out@ =~= self@.row(row_num as int).subrange(0, c as int),
            decreases n - c,
        {
            proof {
                lemma_cell_index(row_num as int, c as int, self@.rows as int, n as int);
            }
            out.push(self.data[row_num * n + c]);
            c = c + 1;
        }
        assert(out@ =~= self@.row(row_num as int));
        out
    }

    /// The cells of column `col_num`, in row order: the buffer read from
    /// offset `col_num` with stride `cols`.
    pub fn col_iter(&self, col_num: usize) -> (out: Vec<i32>)
        requires
            col_num < self@.cols,
        ensures
            out@ == self@.col(col_num as int),
    {
        proof {
            use_type_invariant(self);
        }
        let rows = self.rows;
        let n = self.cols;
        let len = self.data.len();
        let mut out: Vec<i32> = Vec::new();
        let mut r: usize = 0;
        while r < rows
            invariant
                rows == self@.rows,
                n == self@.cols,
                col_num < n,
                len == self.data@.len() == rows * n,
                r <= rows,
                out@ =~= self@.col(col_num as int).subrange(0, r as int),
            decreases rows - r,
        {
            proof {
                lemma_cell_index(r as int, col_num as int, rows as int, n as int);
            }
            out.push(self.data[r * n + col_num]);
            r = r + 1;
        }
        assert(out@ =~= self@.col(col_num as int));
        out
    }

    /// The matrix as text: one line per row, each cell right-aligned in six
    /// columns and followed by a space.
    pub fn to_text(&self) -> (t: String)
        ensures
            t@ == self@.text(),
    {
        proof {
            use_type_invariant(self);
        }
        let rows = self.rows;
        let n = self.cols;
        let len = self.data.len();
        let mut text = String::new();
        let mut r: usize = 0;
        while r < rows
            invariant
                rows == self@.rows,
                n == self@.cols,
                len == self.data@.len() == rows * n,
                r <= rows,
                text@ == rows_text(self@, r as nat),
            decreases rows - r,
        {
            let ghost row = self@.row(r as int);
            let mut c: usize = 0;
            while c < n
                invariant
                    rows == self@.rows,
                    n == self@.cols,
                    len == self.data@.len() == rows * n,
                    r < rows,
                    c <= n,
                    row == self@.row(r as int),
                    text@ == rows_text(self@, r as nat) + cells_text(row.subrange(0, c as int)),
                decreases n - c,
            {
                proof {
                    lemma_cell_index(r as int, c as int, rows as int, n as int);
                    assert(row.subrange(0, c + 1).drop_last() =~= row.subrange(0, c as int));
                }
                let cell = format_cell(self.data[r * n + c]);
                text.append(cell.as_str());
                c = c + 1;
            }
            proof {
                reveal_strlit("\n");
                assert(row.subrange(0, n as int) =~= row);
            }
            text.append("\n");
            r = r + 1;
        }
        text
    }

    /// Cell `(r, c)` of `self × rhs`.
    fn product_cell(&self, rhs: &Matrix, r: usize, c: usize) -> (v: i32)
        requires
            self@.cols == rhs@.rows,
            r < self@.rows,
            c < rhs@.cols,
        ensures
            v == self@.product_cell(rhs@, r as int, c as int),
    {
        proof {
            use_type_invariant(self);
            use_type_invariant(rhs);
        }
        let n = self.cols;
        let lhs_len = self.data.len();
        let rhs_len = rhs.data.len();
        let mut acc: i32 = 0;
        let mut k: usize = 0;
        while k < n
            invariant
                n == self@.cols == rhs@.rows,
                lhs_len == self.data@.len() == self@.rows * self@.cols,
                rhs_len == rhs.data@.len() == rhs@.rows * rhs@.cols,
                r < self@.rows,
                c < rhs@.cols,
                k <= n,
                acc == wrap(dot(self@.row(r as int), rhs@.col(c as int), k as int)),
            decreases n - k,
        {
            proof {
                lemma_cell_index(r as int, k as int, self@.rows as int, n as int);
                lemma_cell_index(k as int, c as int, n as int, rhs@.cols as int);
            }
            let a = self.data[r * n + k];
            let b = rhs.data[k * rhs.cols + c];
            proof {
                let row = self@.row(r as int);
                let col = rhs@.col(c as int);
                let prev = dot(row, col, k as int);
                assert(row[k as int] == a && col[k as int] == b);
                lemma_wrapping_mul(a, b);
                lemma_wrapping_add(acc, a.wrapping_mul(b));
                lemma_wrap_add_left(prev, wrap(a * b) as int);
                lemma_wrap_add_right(prev, a * b);
                assert(dot(row, col, k + 1) == prev + a * b);
            }
            acc = acc.wrapping_add(a.wrapping_mul(b));
            k = k + 1;
        }
        acc
    }

    /// The cell-wise sum of two matrices of one shape.
    pub fn add_mat(&self, rhs: &Matrix) -> (m: Matrix)
        requires
            self@.same_shape(rhs@),
        ensures
            m@ == self@.plus(rhs@),
            m@.wf(),
    {
        proof {
            use_type_invariant(self);
            use_type_invariant(rhs);
        }
        let len = self.data.len();
        let mut data: Vec<i32> = Vec::new();
        let mut i: usize = 0;
        while i < len
            invariant
                len == self.data@.len() == rhs.data@.len(),
                i <= len,
                data@ =~= self@.plus(rhs@).data.subrange(0, i as int),
            decreases len - i,
        {
            proof {
                lemma_wrapping_add(self.data[i as int], rhs.data[i as int]);
            }
            data.push(self.data[i].wrapping_add(rhs.data[i]));
            i = i + 1;
        }
        assert(data@ =~= self@.plus(rhs@).data);
        Matrix { rows: self.rows, cols: self.cols, data }
    }

    /// The cell-wise difference of two matrices of one shape.
    pub fn sub_mat(&self, rhs: &Matrix) -> (m: Matrix)
        requires
            self@.same_shape(rhs@),
        ensures
            m@ == self@.minus(rhs@),
            m@.wf(),
    {
        proof {
            use_type_invariant(self);
            use_type_invariant(rhs);
        }
        let len = self.data.len();
        let mut data: Vec<i32> = Vec::new();
        let mut i: usize = 0;
        while i < len
            invariant
                len == self.data@.len() == rhs.data@.len(),
                i <= len,
                data@ =~= self@.minus(rhs@).data.subrange(0, i as int),
            decreases len - i,
        {
            proof {
                lemma_wrapping_sub(self.data[i as int], rhs.data[i as int]);
            }
            data.push(self.data[i].wrapping_sub(rhs.data[i]));
            i = i + 1;
        }
        assert(data@ =~= self@.minus(rhs@).data);
        Matrix { rows: self.rows, cols: self.cols, data }
    }

    /// Every cell multiplied by `k`, with wrap-around.
    fn scale(&self, k: i32) -> (m: Matrix)
        ensures
            m@ == self@.scaled(k),
            m@.wf(),
    {
        proof {
            use_type_invariant(self);
        }
        let len = self.data.len();
        let mut data: Vec<i32> = Vec::new();
        let mut i: usize = 0;
        while i < len
            invariant
                len == self.data@.len(),
                i <= len,
                data@ =~= self@.scaled(k).data.subrange(0, i as int),
            decreases len - i,
        {
            proof {
                lemma_wrapping_mul(self.data[i as int], k);
            }
            data.push(self.data[i].wrapping_mul(k));
            i = i + 1;
        }
        assert(data@ =~= self@.scaled(k).data);
        Matrix { rows: self.rows, cols: self.cols, data }
    }

    /// The matrix product `self × rhs`.
    ///
    /// The output rows are split into contiguous blocks of at most
    /// `rows / MAX_TASKS + 1` rows, so that at most `MAX_TASKS` blocks are
    /// computed, each on its own thread; all of them are joined before this
    /// returns.
    pub fn mul_mat(&self, rhs: &Matrix) -> (m: Matrix)
        requires
            self@.cols == rhs@.rows,
            self@.rows * rhs@.cols <= usize::MAX,
        ensures
            m@ == self@.times(rhs@),
            m@.wf(),
    {
        let rows = self.rows;
        let n = rhs.cols;
        let ghost full = self@.times(rhs@).data;
        let blocks = row_blocks(rows);
        let parts = run_row_blocks(self, rhs, &blocks);
        let ghost cuts = lemma_block_cuts(blocks@, rows as int, n as int);
        proof {
            assert forall|i: int| 0 <= i < parts@.len() implies 0 <= #[trigger] cuts[i] <= cuts[i + 1]
                <= full.len() by {
                assert(cuts[i] == blocks@[i].0 * n);
            }
            assert forall|i: int| 0 <= i < parts@.len() implies (#[trigger] parts@[i])@ == full.subrange(
                cuts[i],
                cuts[i + 1],
            ) by {
                assert(cuts[i] == blocks@[i].0 * n);
            }
        }
        let data = concat_blocks(&parts, Ghost(full), Ghost(cuts));
        proof {
            assert(rows * n == n * rows) by (nonlinear_arith);
        }
        Matrix { rows, cols: n, data }
    }

    /// The cells of rows `start..end` of `self × rhs`, row-major.
    pub fn product_rows(&self, rhs: &Matrix, start: usize, end: usize) -> (out: Vec<i32>)
        requires
            self@.cols == rhs@.rows,
            start <= end <= self@.rows,
            self@.rows * rhs@.cols <= usize::MAX,
        ensures
            out@ == self@.times(rhs@).data.subrange(
                start * rhs@.cols as int,
                end * rhs@.cols as int,
            ),
    {
        let n = rhs.cols;
        let ghost full = self@.times(rhs@).data;
        let mut out: Vec<i32> = Vec::new();
        let mut r: usize = start;
        proof {
            assert(start * n <= end * n) by (nonlinear_arith)
                requires
                    start <= end,
            ;
            assert(end * n <= self@.rows * n) by (nonlinear_arith)
                requires
                    end <= self@.rows,
            ;
        }
        while r < end
            invariant
                n == rhs@.cols,
                self@.cols == rhs@.rows,
                start <= r <= end <= self@.rows,
                self@.rows * n <= usize::MAX,
                full == self@.times(rhs@).data,
                start * n <= r * n <= end * n <= self@.rows * n,
                out@ == full.subrange(start * n as int, r * n as int),
            decreases end - r,
        {
            let mut c: usize = 0;
            while c < n
                invariant
                    n == rhs@.cols,
                    self@.cols == rhs@.rows,
                    start <= r < end <= self@.rows,
                    full == self@.times(rhs@).data,
                    start * n <= r * n,
                    c <= n,
                    out@ == full.subrange(start * n as int, r * n + c),
                decreases n - c,
            {
                let v = self.product_cell(rhs, r, c);
                proof {
                    lemma_cell_index(r as int, c as int, self@.rows as int, n as int);
                    assert(full[r * n + c] == v);
                    assert(out@.push(v) =~= full.subrange(start * n as int, r * n + c + 1));
                }
                out.push(v);
                c = c + 1;
            }
            proof {
                assert((r + 1) * n == r * n + n) by (nonlinear_arith);
                assert((r + 1) * n <= end * n) by (nonlinear_arith)
                    requires
                        r + 1 <= end,
                ;
            }
            r = r + 1;
        }
        out
    }
}

impl std::ops::Index<[usize; 2]> for Matrix {
    type Output = i32;

    /// The cell at `[row, column]`.
    fn index(&self, index: [usize; 2]) -> (v: &i32)
        ensures
            *v == self@.at(index[0] as int, index[1] as int),
    {
        proof {
            use_type_invariant(self);
            lemma_cell_index(index[0] as int, index[1] as int, self@.rows as int, self@.cols as int);
        }
        &self.data[index[0] * self.cols + index[1]]
    }
}

impl vstd::std_specs::core::IndexSpecImpl<[usize; 2]> for Matrix {
    open spec fn index_req(&self, index: &[usize; 2]) -> bool {
        index[0] < self@.rows && index[1] < self@.cols
    }
}

impl std::ops::Mul<i32> for Matrix {
    type Output = Matrix;

    /// Every cell multiplied by `rhs`, with wrap-around.
    fn mul(self, rhs: i32) -> (m: Matrix)
        ensures
            m@ == self@.scaled(rhs),
            m@.wf(),
    {
        self.scale(rhs)
    }
}

// The product's contract is the `ensures` of `mul` above; no spec-level
// `Matrix` value is offered for it.
impl vstd::std_specs::ops::MulSpecImpl<i32> for Matrix {
    open spec fn obeys_mul_spec() -> bool {
        false
    }

    open spec fn mul_req(self, rhs: i32) -> bool {
        true
    }

    open spec fn mul_spec(self, rhs: i32) -> Matrix {
        self
    }
}

impl std::ops::Mul<Matrix> for i32 {
    type Output = Matrix;

    /// Every cell of `rhs` multiplied by `self`, with wrap-around.
    fn mul(self, rhs: Matrix) -> (m: Matrix)
        ensures
            m@ == scaled_left(self, rhs@),
            m@.wf(),
    {
        proof {
            lemma_scale_commutes(self, rhs@);
        }
        rhs * self
    }
}

// As above, the contract is the `ensures` of `mul`.
impl vstd::std_specs::ops::MulSpecImpl<Matrix> for i32 {
    open spec fn obeys_mul_spec() -> bool {
        false
    }

    open spec fn mul_req(self, rhs: Matrix) -> bool {
        true
    }

    open spec fn mul_spec(self, rhs: Matrix) -> Matrix {
        rhs
    }
}

impl PartialEq for Matrix {
    /// Structural equality: same shape and same cells.
    fn eq(&self, other: &Matrix) -> (r: bool)
        ensures
            r == (self@ == other@),
    {
        if self.rows != other.rows || self.cols != other.cols {
            return false;
        }
        let len = self.data.len();
        if len != other.data.len() {
            return false;
        }
        let mut i: usize = 0;
        while i < len
            invariant
                len == self.data@.len() == other.data@.len(),
                i <= len,
                forall|k: int| 0 <= k < i ==> self.data@[k] == other.data@[k],
            decreases len - i,
        {
            if self.data[i] != other.data[i] {
                return false;
            }
            i = i + 1;
        }
        assert(self.data@ =~= other.data@);
        true
    }
}

impl vstd::std_specs::cmp::PartialEqSpecImpl for Matrix {
    open spec fn obeys_eq_spec() -> bool {
        true
    }

    open spec fn eq_spec(&self, other: &Matrix) -> bool {
        self@ == other@
    }
}

impl Eq for Matrix {
}

impl Clone for Matrix {
    /// A copy with the same shape and cells.
    fn clone(&self) -> (m: Matrix)
        ensures
            m@ == self@,
    {
        proof {
            use_type_invariant(self);
        }
        let data = self.data.clone();
        assert(data@ =~= self.data@);
        Matrix { rows: self.rows, cols: self.cols, data }
    }
}

} // verus!
