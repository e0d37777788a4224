//! Dense row-major matrices and their in-place kernels.
use vstd::prelude::*;
use crate::random::random_word;
use crate::scalar::Scalar;

verus! {

broadcast use vstd::arithmetic::mul::lemma_mul_nonnegative;

/// A dense matrix, stored row by row.
///
/// A matrix is well formed when `data` holds exactly `rows * cols` entries;
/// every kernel asks that of its operands.
#[derive(Clone)]
pub struct Matrix<S: Scalar> {
    pub rows: usize,
    pub cols: usize,
    pub data: Vec<S>,
}

/// The mathematical value of a [`Matrix`]: a shape and the row-major entries.
pub struct MatrixModel<S> {
    pub rows: nat,
    pub cols: nat,
    pub entries: Seq<S>,
}

impl<S: Scalar> View for Matrix<S> {
    type V = MatrixModel<S>;

    open spec fn view(&self) -> MatrixModel<S> {
        MatrixModel { rows: self.rows as nat, cols: self.cols as nat, entries: self.data@ }
    }
}

impl<S: Scalar> MatrixModel<S> {
    /// The entries fill the shape exactly.
    pub open spec fn wf(self) -> bool {
        self.entries.len() == self.rows * self.cols
    }

    /// The entry in row `i`, column `j`.
    pub open spec fn at(self, i: int, j: int) -> S {
        self.entries[i * self.cols + j]
    }

    /// The matrix of the given shape whose entry at `(i, j)` is `f(i, j)`.
    pub open spec fn build(rows: nat, cols: nat, f: spec_fn(int, int) -> S) -> MatrixModel<S> {
        MatrixModel {
            rows,
            cols,
            entries: Seq::new(rows * cols, |k: int| f(k / (cols as int), k % (cols as int))),
        }
    }

    /// The matrix of the given shape whose entries are all zero.
    pub open spec fn zeros(rows: nat, cols: nat) -> MatrixModel<S> {
        MatrixModel { rows, cols, entries: Seq::new(rows * cols, |k: int| S::zero_spec()) }
    }

    /// The column vector with the entries `v`.
    pub open spec fn column(v: Seq<S>) -> MatrixModel<S> {
        MatrixModel { rows: v.len(), cols: 1, entries: v }
    }
}

/// Row-major addressing: position `i * cols + j` lies inside a `rows x cols`
/// buffer and is reached from no other row and column.
pub proof fn lemma_row_major(i: int, j: int, rows: int, cols: int)
    requires
        0 <= i < rows,
        0 <= j < cols,
    ensures
        0 <= i * cols + j < rows * cols,
        (i + 1) * cols == i * cols + cols,
        (i * cols + j) / cols == i,
        (i * cols + j) % cols == j,
{
    assert(0 <= i * cols && (i + 1) * cols == i * cols + cols && (i + 1) * cols <= rows * cols)
        by (nonlinear_arith)
        requires
            0 <= i < rows,
            0 < cols,
    ;
    vstd::arithmetic::div_mod::lemma_fundamental_div_mod_converse(i * cols + j, cols, i, j);
}

/// A built matrix is well formed and holds `f(i, j)` at `(i, j)`.
pub proof fn lemma_build_at<S: Scalar>(rows: nat, cols: nat, f: spec_fn(int, int) -> S, i: int, j: int)
    requires
        0 <= i < rows,
        0 <= j < cols,
    ensures
        MatrixModel::build(rows, cols, f).wf(),
        MatrixModel::build(rows, cols, f).at(i, j) == f(i, j),
{
    lemma_row_major(i, j, rows as int, cols as int);
}

/// The sum of the first `n` products `a[i][k] * b[k][j]`, accumulated from
/// zero in the order of `k`.
pub open spec fn dot_prefix<S: Scalar>(
    a: MatrixModel<S>,
    b: MatrixModel<S>,
    i: int,
    j: int,
    n: nat,
) -> S
    decreases n,
{
    if n == 0 {
        S::zero_spec()
    } else {
        dot_prefix(a, b, i, j, (n - 1) as nat).add_spec(
            a.at(i, n - 1).mul_spec(b.at(n - 1, j)),
        )
    }
}

/// The entry `(i, j)` of the product `a * b`.
pub open spec fn dot_entry<S: Scalar>(a: MatrixModel<S>, b: MatrixModel<S>, i: int, j: int) -> S {
    dot_prefix(a, b, i, j, a.cols)
}

/// The matrix product `a * b`.
pub open spec fn dot_model<S: Scalar>(a: MatrixModel<S>, b: MatrixModel<S>) -> MatrixModel<S> {
    MatrixModel::build(a.rows, b.cols, |i: int, j: int| dot_entry(a, b, i, j))
}

/// The sum of the first `n` products `w[i][j] * e[i]`, accumulated from zero
/// in the order of `i`.
pub open spec fn transpose_dot_prefix<S: Scalar>(
    w: MatrixModel<S>,
    e: MatrixModel<S>,
    j: int,
    n: nat,
) -> S
    decreases n,
{
    if n == 0 {
        S::zero_spec()
    } else {
        transpose_dot_prefix(w, e, j, (n - 1) as nat).add_spec(
            w.at(n - 1, j).mul_spec(e.entries[n - 1]),
        )
    }
}

/// The column vector `w^T * e`, for a column vector `e`.
pub open spec fn transpose_dot_model<S: Scalar>(w: MatrixModel<S>, e: MatrixModel<S>) -> MatrixModel<S> {
    MatrixModel::column(Seq::new(w.cols, |j: int| transpose_dot_prefix(w, e, j, w.rows)))
}

/// The outer product of two column vectors: the entry `(i, j)` is `u[i] * v[j]`.
pub open spec fn outer_model<S: Scalar>(u: MatrixModel<S>, v: MatrixModel<S>) -> MatrixModel<S> {
    MatrixModel::build(u.rows, v.rows, |i: int, j: int| u.entries[i].mul_spec(v.entries[j]))
}

/// The transpose: the entry `(i, j)` is `a[j][i]`.
pub open spec fn transpose_model<S: Scalar>(a: MatrixModel<S>) -> MatrixModel<S> {
    MatrixModel::build(a.cols, a.rows, |i: int, j: int| a.at(j, i))
}

/// The entrywise sum `a + b`, in the shape of `a`.
pub open spec fn add_model<S: Scalar>(a: MatrixModel<S>, b: MatrixModel<S>) -> MatrixModel<S> {
    MatrixModel {
        rows: a.rows,
        cols: a.cols,
        entries: Seq::new(a.entries.len(), |k: int| a.entries[k].add_spec(b.entries[k])),
    }
}

/// The entrywise difference `a - b`, in the shape of `a`.
pub open spec fn sub_model<S: Scalar>(a: MatrixModel<S>, b: MatrixModel<S>) -> MatrixModel<S> {
    MatrixModel {
        rows: a.rows,
        cols: a.cols,
        entries: Seq::new(a.entries.len(), |k: int| a.entries[k].sub_spec(b.entries[k])),
    }
}

/// The entrywise product of `a` and `b`, in the shape of `a`.
pub open spec fn hadamard_model<S: Scalar>(a: MatrixModel<S>, b: MatrixModel<S>) -> MatrixModel<S> {
    MatrixModel {
        rows: a.rows,
        cols: a.cols,
        entries: Seq::new(a.entries.len(), |k: int| a.entries[k].mul_spec(b.entries[k])),
    }
}

/// Every entry of `a` multiplied by `factor`.
pub open spec fn scale_model<S: Scalar>(a: MatrixModel<S>, factor: S) -> MatrixModel<S> {
    MatrixModel {
        rows: a.rows,
        cols: a.cols,
        entries: Seq::new(a.entries.len(), |k: int| a.entries[k].mul_spec(factor)),
    }
}

/// The entrywise update `a + b * factor`, in the shape of `a`.
pub open spec fn add_scaled_model<S: Scalar>(
    a: MatrixModel<S>,
    b: MatrixModel<S>,
    factor: S,
) -> MatrixModel<S> {
    MatrixModel {
        rows: a.rows,
        cols: a.cols,
        entries: Seq::new(
            a.entries.len(),
            |k: int| a.entries[k].add_spec(b.entries[k].mul_spec(factor)),
        ),
    }
}

/// The matrix whose entries are the unit-interval values of `words`.
pub open spec fn unit_model<S: Scalar>(rows: nat, cols: nat, words: Seq<u32>) -> MatrixModel<S> {
    MatrixModel { rows, cols, entries: Seq::new(words.len(), |k: int| S::unit_spec(words[k])) }
}

impl<S: Scalar> Matrix<S> {
    /// The buffer holds exactly `rows * cols` entries.
    pub open spec fn wf(&self) -> bool {
        self.data.len() == self.rows * self.cols
    }

    /// Allocates a zero-filled matrix.
    pub fn new(rows: usize, cols: usize) -> (m: Matrix<S>)
        requires
            rows * cols <= usize::MAX,
        ensures
            m@ == MatrixModel::<S>::zeros(rows as nat, cols as nat),
            m.wf(),
    {
        let n: usize = rows * cols;
        let mut data: Vec<S> = Vec::with_capacity(n);
        let mut k: usize = 0;
        while k < n
            invariant
                k <= n,
                data@.len() == k,
                forall|p: int| 0 <= p < k ==> data@[p] == S::zero_spec(),
            decreases n - k,
        {
            data.push(S::zero());
            k += 1;
        }
        let m = Matrix { rows, cols, data };
        assert(m@.entries =~= MatrixModel::<S>::zeros(rows as nat, cols as nat).entries);
        m
    }

    /// Whether `data` holds exactly `rows * cols` entries.
    pub fn is_well_formed(&self) -> (b: bool)
        ensures
            b == self.wf(),
    {
        let len: usize = self.data.len();
        match self.rows.checked_mul(self.cols) {
            Some(n) => n == len,
            None => false,
        }
    }

    /// The matrix product `target = self * other`.
    ///
    /// Whatever `target` held before is overwritten; its shape must already
    /// be that of the product.
    pub fn dot(&self, other: &Matrix<S>, target: &mut Matrix<S>)
        requires
            self.wf(),
            other.wf(),
            old(target).wf(),
            self.cols == other.rows,
            old(target).rows == self.rows,
            old(target).cols == other.cols,
        ensures
            final(target)@ == dot_model(self@, other@),
            final(target).wf(),
            forall|i: int, j: int|
                0 <= i < self.rows && 0 <= j < other.cols ==> #[trigger] final(target)@.at(i, j)
                    == dot_entry(self@, other@, i, j),
    {
        let ghost a = self@;
        let ghost b = other@;
        let ghost width = other.cols as int;
        let mut i: usize = 0;
        while i < self.rows
            invariant
                a == self@,
                b == other@,
                width == other.cols,
                self.wf(),
                other.wf(),
                target.wf(),
                self.cols == other.rows,
                target.rows == self.rows,
                target.cols == other.cols,
                i <= self.rows,
                forall|p: int|
                    0 <= p < i * width ==> target.data@[p] == dot_entry(
                        a,
                        b,
                        p / width,
                        p % width,
                    ),
            decreases self.rows - i,
        {
            let mut j: usize = 0;
            while j < other.cols
                invariant
                    a == self@,
                    b == other@,
                    width == other.cols,
                    self.wf(),
                    other.wf(),
                    target.wf(),
                    self.cols == other.rows,
                    target.rows == self.rows,
                    target.cols == other.cols,
                    i < self.rows,
                    j <= other.cols,
                    forall|p: int|
                        0 <= p < i * width + j ==> target.data@[p] == dot_entry(
                            a,
                            b,
                            p / width,
                            p % width,
                        ),
                decreases other.cols - j,
            {
                let mut sum: S = S::zero();
                let mut k: usize = 0;
                while k < self.cols
                    invariant
                        a == self@,
                        b == other@,
                        self.wf(),
                        other.wf(),
                        self.cols == other.rows,
                        i < self.rows,
                        j < other.cols,
                        k <= self.cols,
                        sum == dot_prefix(a, b, i as int, j as int, k as nat),
                    decreases self.cols - k,
                {
                    proof {
                        lemma_row_major(i as int, k as int, self.rows as int, self.cols as int);
                        lemma_row_major(k as int, j as int, other.rows as int, other.cols as int);
                    }
                    sum = sum.add(self.data[i * self.cols + k].mul(other.data[k * other.cols + j]));
                    k += 1;
                }
                proof {
                    lemma_row_major(i as int, j as int, self.rows as int, width);
                }
                target.data[i * other.cols + j] = sum;
                j += 1;
            }
            proof {
                assert((i + 1) * width == i * width + width) by (nonlinear_arith);
            }
            i += 1;
        }
        proof {
            assert(i * width == self.rows * other.cols);
            assert(target@.entries =~= dot_model(a, b).entries);
            assert forall|r: int, c: int| 0 <= r < self.rows && 0 <= c < other.cols implies #[trigger] target@.at(
                r,
                c,
            ) == dot_entry(a, b, r, c) by {
                lemma_build_at(a.rows, b.cols, |i: int, j: int| dot_entry(a, b, i, j), r, c);
            }
        }
    }

    /// The matrix product `self * other`, freshly allocated.
    pub fn dot_multiply(&self, other: &Matrix<S>) -> (m: Matrix<S>)
        requires
            self.wf(),
            other.wf(),
            self.cols == other.rows,
            self.rows * other.cols <= usize::MAX,
        ensures
            m@ == dot_model(self@, other@),
            m.wf(),
            forall|i: int, j: int|
                0 <= i < self.rows && 0 <= j < other.cols ==> #[trigger] m@.at(i, j) == dot_entry(
                    self@,
                    other@,
                    i,
                    j,
                ),
    {
        let mut target: Matrix<S> = Matrix::new(self.rows, other.cols);
        self.dot(other, &mut target);
        target
    }
}

impl<S: Scalar> Matrix<S> {
    /// Whether the matrix has the given shape.
    pub fn has_shape(&self, rows: usize, cols: usize) -> (b: bool)
        ensures
            b == (self.rows == rows && self.cols == cols),
    {
        self.rows == rows && self.cols == cols
    }

    /// Whether both matrices are well formed and of one shape, as the
    /// entrywise operations ask.
    pub fn same_shape(&self, other: &Matrix<S>) -> (b: bool)
        ensures
            b == (self.wf() && other.wf() && self.rows == other.rows && self.cols == other.cols),
    {
        self.is_well_formed() && other.is_well_formed() && self.rows == other.rows && self.cols
            == other.cols
    }

    /// Whether `self * other` can be written to `target`: all three are
    /// well formed, the inner dimensions agree, and `target` has the shape
    /// of the product.
    pub fn can_dot(&self, other: &Matrix<S>, target: &Matrix<S>) -> (b: bool)
        ensures
            b == (self.wf() && other.wf() && target.wf() && self.cols == other.rows && target.rows
                == self.rows && target.cols == other.cols),
    {
        self.is_well_formed() && other.is_well_formed() && target.is_well_formed() && self.cols
            == other.rows && target.rows == self.rows && target.cols == other.cols
    }

    /// A deep copy.
    pub fn duplicate(&self) -> (m: Matrix<S>)
        ensures
            m@ == self@,
            m.wf() == self.wf(),
    {
        let n: usize = self.data.len();
        let mut data: Vec<S> = Vec::with_capacity(n);
        let mut k: usize = 0;
        while k < n
            invariant
                n == self.data.len(),
                k <= n,
                data@ =~= self.data@.take(k as int),
            decreases n - k,
        {
            data.push(self.data[k]);
            k += 1;
        }
        assert(self.data@.take(n as int) =~= self.data@);
        Matrix { rows: self.rows, cols: self.cols, data }
    }

    /// Overwrites every entry with zero.
    pub fn zeros(&mut self)
        ensures
            final(self).rows == old(self).rows,
            final(self).cols == old(self).cols,
            final(self).data@ == Seq::new(old(self).data@.len(), |k: int| S::zero_spec()),
            old(self).wf() ==> final(self).wf() && final(self)@ == MatrixModel::<S>::zeros(
                old(self).rows as nat,
                old(self).cols as nat,
            ),
    {
        let n: usize = self.data.len();
        let mut k: usize = 0;
        while k < n
            invariant
                self.rows == old(self).rows,
                self.cols == old(self).cols,
                n == self.data.len(),
                n == old(self).data.len(),
                k <= n,
                forall|p: int| 0 <= p < k ==> self.data@[p] == S::zero_spec(),
            decreases n - k,
        {
            self.data[k] = S::zero();
            k += 1;
        }
        assert(self.data@ =~= Seq::new(old(self).data@.len(), |k: int| S::zero_spec()));
        assert(old(self).wf() ==> self@.entries =~= MatrixModel::<S>::zeros(
            old(self).rows as nat,
            old(self).cols as nat,
        ).entries);
    }

    /// Overwrites the buffer with `src`, entry for entry.
    pub fn copy_from_slice(&mut self, src: &[S])
        requires
            old(self).wf(),
            src@.len() == old(self).rows * old(self).cols,
        ensures
            final(self).rows == old(self).rows,
            final(self).cols == old(self).cols,
            final(self).data@ == src@,
            final(self).wf(),
    {
        let n: usize = self.data.len();
        let mut k: usize = 0;
        while k < n
            invariant
                self.rows == old(self).rows,
                self.cols == old(self).cols,
                n == self.data.len(),
                n == src@.len(),
                k <= n,
                forall|p: int| 0 <= p < k ==> self.data@[p] == src@[p],
            decreases n - k,
        {
            self.data[k] = src[k];
            k += 1;
        }
        assert(self.data@ =~= src@);
    }

    /// The outer product of two column vectors: `target[i][j] = self[i] * input[j]`.
    pub fn outer_product(&self, input: &Matrix<S>, target: &mut Matrix<S>)
        requires
            self.wf(),
            input.wf(),
            old(target).wf(),
            self.cols == 1,
            input.cols == 1,
            old(target).rows == self.rows,
            old(target).cols == input.rows,
        ensures
            final(target)@ == outer_model(self@, input@),
            final(target).wf(),
            forall|i: int, j: int|
                0 <= i < self.rows && 0 <= j < input.rows ==> #[trigger] final(target)@.at(i, j)
                    == self.data@[i].mul_spec(input.data@[j]),
    {
        let ghost u = self@;
        let ghost v = input@;
        let ghost width = input.rows as int;
        let mut i: usize = 0;
        while i < self.rows
            invariant
                u == self@,
                v == input@,
                width == input.rows,
                self.wf(),
                input.wf(),
                target.wf(),
                self.cols == 1,
                input.cols == 1,
                target.rows == self.rows,
                target.cols == input.rows,
                i <= self.rows,
                forall|p: int|
                    0 <= p < i * width ==> target.data@[p] == u.entries[p / width].mul_spec(
                        v.entries[p % width],
                    ),
            decreases self.rows - i,
        {
            let left: S = self.data[i];
            let mut j: usize = 0;
            while j < input.rows
                invariant
                    u == self@,
                    v == input@,
                    width == input.rows,
                    self.wf(),
                    input.wf(),
                    target.wf(),
                    self.cols == 1,
                    input.cols == 1,
                    target.rows == self.rows,
                    target.cols == input.rows,
                    i < self.rows,
                    j <= input.rows,
                    left == u.entries[i as int],
                    forall|p: int|
                        0 <= p < i * width + j ==> target.data@[p] == u.entries[p / width].mul_spec(
                            v.entries[p % width],
                        ),
                decreases input.rows - j,
            {
                proof {
                    lemma_row_major(i as int, j as int, self.rows as int, width);
                }
                target.data[i * input.rows + j] = left.mul(input.data[j]);
                j += 1;
            }
            proof {
                assert((i + 1) * width == i * width + width) by (nonlinear_arith);
            }
            i += 1;
        }
        proof {
            assert(target@.entries =~= outer_model(u, v).entries);
            assert forall|r: int, c: int| 0 <= r < self.rows && 0 <= c < input.rows implies #[trigger] target@.at(
                r,
                c,
            ) == self.data@[r].mul_spec(input.data@[c]) by {
                lemma_build_at(
                    u.rows,
                    v.rows,
                    |i: int, j: int| u.entries[i].mul_spec(v.entries[j]),
                    r,
                    c,
                );
            }
        }
    }

    /// The product with the transpose, `target = self^T * error`, for a
    /// column vector `error`; the transpose is never built.
    pub fn dot_transpose_self(&self, error: &Matrix<S>, target: &mut Matrix<S>)
        requires
            self.wf(),
            error.wf(),
            old(target).wf(),
            error.cols == 1,
            self.rows == error.rows,
            old(target).rows == self.cols,
            old(target).cols == 1,
        ensures
            final(target)@ == transpose_dot_model(self@, error@),
            final(target).wf(),
            forall|j: int|
                0 <= j < self.cols ==> #[trigger] final(target).data@[j] == transpose_dot_prefix(
                    self@,
                    error@,
                    j,
                    self.rows as nat,
                ),
    {
        let ghost w = self@;
        let ghost e = error@;
        let mut j: usize = 0;
        while j < self.cols
            invariant
                w == self@,
                e == error@,
                self.wf(),
                error.wf(),
                target.wf(),
                error.cols == 1,
                self.rows == error.rows,
                target.rows == self.cols,
                target.cols == 1,
                j <= self.cols,
                forall|p: int|
                    0 <= p < j ==> target.data@[p] == transpose_dot_prefix(w, e, p, w.rows),
            decreases self.cols - j,
        {
            let mut sum: S = S::zero();
            let mut i: usize = 0;
            while i < self.rows
                invariant
                    w == self@,
                    e == error@,
                    self.wf(),
                    error.wf(),
                    error.cols == 1,
                    self.rows == error.rows,
                    j < self.cols,
                    i <= self.rows,
                    sum == transpose_dot_prefix(w, e, j as int, i as nat),
                decreases self.rows - i,
            {
                proof {
                    lemma_row_major(i as int, j as int, self.rows as int, self.cols as int);
                }
                sum = sum.add(self.data[i * self.cols + j].mul(error.data[i]));
                i += 1;
            }
            target.data[j] = sum;
            j += 1;
        }
        proof {
            assert(target@.entries =~= transpose_dot_model(w, e).entries);
        }
    }

    /// Applies `f` to every entry.
    pub fn map<F: Fn(S) -> S>(&self, f: F) -> (m: Matrix<S>)
        requires
            forall|k: int| 0 <= k < self.data@.len() ==> call_requires(f, (#[trigger] self.data@[k],)),
        ensures
            m.rows == self.rows,
            m.cols == self.cols,
            m.data@.len() == self.data@.len(),
            forall|k: int|
                0 <= k < self.data@.len() ==> call_ensures(
                    f,
                    (self.data@[k],),
                    #[trigger] m.data@[k],
                ),
    {
        let n: usize = self.data.len();
        let mut data: Vec<S> = Vec::with_capacity(n);
        let mut k: usize = 0;
        while k < n
            invariant
                n == self.data.len(),
                k <= n,
                data@.len() == k,
                forall|p: int|
                    0 <= p < self.data@.len() ==> call_requires(f, (#[trigger] self.data@[p],)),
                forall|p: int|
                    0 <= p < k ==> call_ensures(f, (self.data@[p],), #[trigger] data@[p]),
            decreases n - k,
        {
            let y: S = f(self.data[k]);
            data.push(y);
            k += 1;
        }
        Matrix { rows: self.rows, cols: self.cols, data }
    }

    /// The entrywise sum `self + other`.
    pub fn add(&self, other: &Matrix<S>) -> (m: Matrix<S>)
        requires
            self.wf(),
            other.wf(),
            self.rows == other.rows,
            self.cols == other.cols,
        ensures
            m@ == add_model(self@, other@),
            m.wf(),
    {
        let n: usize = self.data.len();
        let mut data: Vec<S> = Vec::with_capacity(n);
        let mut k: usize = 0;
        while k < n
            invariant
                n == self.data.len(),
                n == other.data.len(),
                k <= n,
                data@.len() == k,
                forall|p: int| 0 <= p < k ==> data@[p] == self.data@[p].add_spec(other.data@[p]),
            decreases n - k,
        {
            data.push(self.data[k].add(other.data[k]));
            k += 1;
        }
        let m = Matrix { rows: self.rows, cols: self.cols, data };
        assert(m@.entries =~= add_model(self@, other@).entries);
        m
    }

    /// The entrywise difference `self - other`.
    pub fn subtract(&self, other: &Matrix<S>) -> (m: Matrix<S>)
        requires
            self.wf(),
            other.wf(),
            self.rows == other.rows,
            self.cols == other.cols,
        ensures
            m@ == sub_model(self@, other@),
            m.wf(),
    {
        let n: usize = self.data.len();
        let mut data: Vec<S> = Vec::with_capacity(n);
        let mut k: usize = 0;
        while k < n
            invariant
                n == self.data.len(),
                n == other.data.len(),
                k <= n,
                data@.len() == k,
                forall|p: int| 0 <= p < k ==> data@[p] == self.data@[p].sub_spec(other.data@[p]),
            decreases n - k,
        {
            data.push(self.data[k].sub(other.data[k]));
            k += 1;
        }
        let m = Matrix { rows: self.rows, cols: self.cols, data };
        assert(m@.entries =~= sub_model(self@, other@).entries);
        m
    }

    /// The entrywise product of `self` and `other`.
    pub fn multiply_elementwise(&self, other: &Matrix<S>) -> (m: Matrix<S>)
        requires
            self.wf(),
            other.wf(),
            self.rows == other.rows,
            self.cols == other.cols,
        ensures
            m@ == hadamard_model(self@, other@),
            m.wf(),
    {
        let n: usize = self.data.len();
        let mut data: Vec<S> = Vec::with_capacity(n);
        let mut k: usize = 0;
        while k < n
            invariant
                n == self.data.len(),
                n == other.data.len(),
                k <= n,
                data@.len() == k,
                forall|p: int| 0 <= p < k ==> data@[p] == self.data@[p].mul_spec(other.data@[p]),
            decreases n - k,
        {
            data.push(self.data[k].mul(other.data[k]));
            k += 1;
        }
        let m = Matrix { rows: self.rows, cols: self.cols, data };
        assert(m@.entries =~= hadamard_model(self@, other@).entries);
        m
    }

    /// Every entry multiplied by `scalar`.
    pub fn multiply_scalar(&self, scalar: S) -> (m: Matrix<S>)
        ensures
            m@ == scale_model(self@, scalar),
            m.wf() == self.wf(),
    {
        let n: usize = self.data.len();
        let mut data: Vec<S> = Vec::with_capacity(n);
        let mut k: usize = 0;
        while k < n
            invariant
                n == self.data.len(),
                k <= n,
                data@.len() == k,
                forall|p: int| 0 <= p < k ==> data@[p] == self.data@[p].mul_spec(scalar),
            decreases n - k,
        {
            data.push(self.data[k].mul(scalar));
            k += 1;
        }
        let m = Matrix { rows: self.rows, cols: self.cols, data };
        assert(m@.entries =~= scale_model(self@, scalar).entries);
        m
    }

    /// The transpose, freshly allocated.
    pub fn transpose(&self) -> (m: Matrix<S>)
        requires
            self.wf(),
        ensures
            m@ == transpose_model(self@),
            m.wf(),
            forall|i: int, j: int|
                0 <= i < self.cols && 0 <= j < self.rows ==> #[trigger] m@.at(i, j) == self@.at(j, i),
    {
        let ghost a = self@;
        let ghost height = self.rows as int;
        assert(self.cols * self.rows == self.rows * self.cols) by (nonlinear_arith);
        let mut m: Matrix<S> = Matrix::new(self.cols, self.rows);
        let mut i: usize = 0;
        while i < self.cols
            invariant
                a == self@,
                height == self.rows,
                self.wf(),
                m.wf(),
                m.rows == self.cols,
                m.cols == self.rows,
                i <= self.cols,
                forall|p: int| 0 <= p < i * height ==> m.data@[p] == a.at(p % height, p / height),
            decreases self.cols - i,
        {
            let mut j: usize = 0;
            while j < self.rows
                invariant
                    a == self@,
                    height == self.rows,
                    self.wf(),
                    m.wf(),
                    m.rows == self.cols,
                    m.cols == self.rows,
                    i < self.cols,
                    j <= self.rows,
                    forall|p: int|
                        0 <= p < i * height + j ==> m.data@[p] == a.at(p % height, p / height),
                decreases self.rows - j,
            {
                proof {
                    lemma_row_major(i as int, j as int, self.cols as int, height);
                    lemma_row_major(j as int, i as int, self.rows as int, self.cols as int);
                }
                m.data[i * self.rows + j] = self.data[j * self.cols + i];
                j += 1;
            }
            proof {
                assert((i + 1) * height == i * height + height) by (nonlinear_arith);
            }
            i += 1;
        }
        proof {
            assert(m@.entries =~= transpose_model(a).entries);
            assert forall|r: int, c: int| 0 <= r < self.cols && 0 <= c < self.rows implies #[trigger] m@.at(
                r,
                c,
            ) == a.at(c, r) by {
                lemma_build_at(a.cols, a.rows, |i: int, j: int| a.at(j, i), r, c);
            }
        }
        m
    }

    /// Flattens a non-empty list of equally long rows.
    pub fn from(data: Vec<Vec<S>>) -> (m: Matrix<S>)
        requires
            data@.len() > 0,
            forall|i: int| 0 <= i < data@.len() ==> (#[trigger] data@[i])@.len() == data@[0]@.len(),
        ensures
            m.rows == data@.len(),
            m.cols == data@[0]@.len(),
            m.wf(),
            forall|i: int, j: int|
                0 <= i < m.rows && 0 <= j < m.cols ==> #[trigger] m@.at(i, j) == data@[i]@[j],
    {
        let rows: usize = data.len();
        let cols: usize = data[0].len();
        let ghost width = cols as int;
        let mut flat: Vec<S> = Vec::new();
        let mut i: usize = 0;
        while i < rows
            invariant
                rows == data@.len(),
                cols == data@[0]@.len(),
                width == cols,
                forall|r: int| 0 <= r < data@.len() ==> (#[trigger] data@[r])@.len() == cols,
                i <= rows,
                flat@.len() == i * width,
                forall|p: int| 0 <= p < i * width ==> flat@[p] == data@[p / width]@[p % width],
            decreases rows - i,
        {
            let mut j: usize = 0;
            while j < cols
                invariant
                    rows == data@.len(),
                    cols == data@[0]@.len(),
                    width == cols,
                    forall|r: int| 0 <= r < data@.len() ==> (#[trigger] data@[r])@.len() == cols,
                    i < rows,
                    j <= cols,
                    flat@.len() == i * width + j,
                    forall|p: int|
                        0 <= p < i * width + j ==> flat@[p] == data@[p / width]@[p % width],
                decreases cols - j,
            {
                proof {
                    lemma_row_major(i as int, j as int, rows as int, width);
                }
                flat.push(data[i][j]);
                j += 1;
            }
            proof {
                assert((i + 1) * width == i * width + width) by (nonlinear_arith);
            }
            i += 1;
        }
        let m = Matrix { rows, cols, data: flat };
        proof {
            assert(m.data.len() == rows * cols);
            assert forall|r: int, c: int| 0 <= r < m.rows && 0 <= c < m.cols implies #[trigger] m@.at(
                r,
                c,
            ) == data@[r]@[c] by {
                lemma_row_major(r, c, rows as int, width);
            }
        }
        m
    }

    /// Adds `other` to `self`, entry by entry.
    pub fn accumulate(&mut self, other: &Matrix<S>)
        requires
            old(self).data@.len() == other.data@.len(),
        ensures
            final(self)@ == add_model(old(self)@, other@),
            final(self).wf() == old(self).wf(),
    {
        let n: usize = self.data.len();
        let mut k: usize = 0;
        while k < n
            invariant
                self.rows == old(self).rows,
                self.cols == old(self).cols,
                n == self.data.len(),
                n == old(self).data.len(),
                n == other.data.len(),
                k <= n,
                forall|p: int|
                    0 <= p < k ==> self.data@[p] == old(self).data@[p].add_spec(other.data@[p]),
                forall|p: int| k <= p < n ==> self.data@[p] == old(self).data@[p],
            decreases n - k,
        {
            self.data[k] = self.data[k].add(other.data[k]);
            k += 1;
        }
        assert(self@.entries =~= add_model(old(self)@, other@).entries);
    }

    /// Multiplies every entry by `factor`.
    pub fn scale(&mut self, factor: S)
        ensures
            final(self)@ == scale_model(old(self)@, factor),
            final(self).wf() == old(self).wf(),
    {
        let n: usize = self.data.len();
        let mut k: usize = 0;
        while k < n
            invariant
                self.rows == old(self).rows,
                self.cols == old(self).cols,
                n == self.data.len(),
                n == old(self).data.len(),
                k <= n,
                forall|p: int| 0 <= p < k ==> self.data@[p] == old(self).data@[p].mul_spec(factor),
                forall|p: int| k <= p < n ==> self.data@[p] == old(self).data@[p],
            decreases n - k,
        {
            self.data[k] = self.data[k].mul(factor);
            k += 1;
        }
        assert(self@.entries =~= scale_model(old(self)@, factor).entries);
    }

    /// Adds `other * factor` to `self`, entry by entry.
    pub fn add_scaled(&mut self, other: &Matrix<S>, factor: S)
        requires
            old(self).data@.len() == other.data@.len(),
        ensures
            final(self)@ == add_scaled_model(old(self)@, other@, factor),
            final(self).wf() == old(self).wf(),
    {
        let n: usize = self.data.len();
        let mut k: usize = 0;
        while k < n
            invariant
                self.rows == old(self).rows,
                self.cols == old(self).cols,
                n == self.data.len(),
                n == old(self).data.len(),
                n == other.data.len(),
                k <= n,
                forall|p: int|
                    0 <= p < k ==> self.data@[p] == old(self).data@[p].add_spec(
                        other.data@[p].mul_spec(factor),
                    ),
                forall|p: int| k <= p < n ==> self.data@[p] == old(self).data@[p],
            decreases n - k,
        {
            self.data[k] = self.data[k].add(other.data[k].mul(factor));
            k += 1;
        }
        assert(self@.entries =~= add_scaled_model(old(self)@, other@, factor).entries);
    }

    /// The matrix whose entries are the unit-interval values of `words`, in
    /// row-major order.
    pub fn from_unit_words(rows: usize, cols: usize, words: &[u32]) -> (m: Matrix<S>)
        requires
            words@.len() == rows * cols,
        ensures
            m@ == unit_model::<S>(rows as nat, cols as nat, words@),
            m.wf(),
            forall|k: int| 0 <= k < m.data@.len() ==> (#[trigger] m.data@[k]).in_unit_interval(),
    {
        let n: usize = words.len();
        let mut data: Vec<S> = Vec::with_capacity(n);
        let mut k: usize = 0;
        while k < n
            invariant
                n == words@.len(),
                k <= n,
                data@.len() == k,
                forall|p: int| 0 <= p < k ==> data@[p] == S::unit_spec(words@[p]),
                forall|p: int| 0 <= p < k ==> (#[trigger] data@[p]).in_unit_interval(),
            decreases n - k,
        {
            data.push(S::unit(words[k]));
            k += 1;
        }
        let m = Matrix { rows, cols, data };
        assert(m@.entries =~= unit_model::<S>(rows as nat, cols as nat, words@).entries);
        m
    }

    /// A matrix whose entries are drawn independently and uniformly from
    /// `[0, 1)`.
    pub fn random(rows: usize, cols: usize) -> (m: Matrix<S>)
        requires
            rows * cols <= usize::MAX,
        ensures
            m.rows == rows,
            m.cols == cols,
            m.wf(),
            exists|words: Seq<u32>| m@ == unit_model::<S>(rows as nat, cols as nat, words),
            forall|k: int| 0 <= k < m.data@.len() ==> (#[trigger] m.data@[k]).in_unit_interval(),
    {
        let n: usize = rows * cols;
        let mut data: Vec<S> = Vec::with_capacity(n);
        let ghost mut words: Seq<u32> = Seq::empty();
        let mut k: usize = 0;
        while k < n
            invariant
                k <= n,
                data@.len() == k,
                words.len() == k,
                forall|p: int| 0 <= p < k ==> data@[p] == S::unit_spec(words[p]),
                forall|p: int| 0 <= p < k ==> (#[trigger] data@[p]).in_unit_interval(),
            decreases n - k,
        {
            let word: u32 = random_word();
            data.push(S::unit(word));
            proof {
                words = words.push(word);
            }
            k += 1;
        }
        let m = Matrix { rows, cols, data };
        assert(m@.entries =~= unit_model::<S>(rows as nat, cols as nat, words).entries);
        m
    }
}

} // verus!
