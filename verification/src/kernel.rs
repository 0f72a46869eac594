//! Convolution kernels: matrices of weights, the filters they define, and the
//! filters that combine the responses of two kernels.
use crate::color::Color;
use crate::filter::Filter;
use crate::fixed::{
    minus_spec, modulo_spec, over_spec, plus_spec, times_spec, Fixed, SCALE,
};
use crate::diff::{coordinates, lemma_coordinates};
use crate::fixed::{clamp_unit, round_div};
use crate::image::{all_wf, clamp_index, lemma_offset_in_range, planes, Image, Plane};
use crate::ty::Type;
use vstd::prelude::*;

verus! {

/// A matrix of weights, row by row.
pub type Weights = Seq<Seq<int>>;

/// Whether the matrix has `rows` rows of `cols` weights each, and at least
/// one weight.
pub open spec fn rectangular(weights: Weights, rows: int, cols: int) -> bool {
    &&& rows > 0
    &&& cols > 0
    &&& weights.len() == rows
    &&& forall|j: int| 0 <= j < rows ==> (#[trigger] weights[j]).len() == cols
}

/// The sum of a list of numbers, taken from the left, saturating at each step.
pub open spec fn seq_sum(s: Seq<int>) -> int
    decreases s.len(),
{
    if s.len() == 0 {
        0
    } else {
        plus_spec(seq_sum(s.drop_last()), s.last())
    }
}

/// The sum of all weights: the sum of the sums of the rows.
pub open spec fn weight_sum(weights: Weights) -> int {
    seq_sum(Seq::new(weights.len(), |j: int| seq_sum(weights[j])))
}

/// The matrix with every weight divided by the sum of all weights, or the
/// matrix itself where that sum is zero.
pub open spec fn normalized(weights: Weights) -> Weights {
    let sum = weight_sum(weights);
    if sum == 0 {
        weights
    } else {
        Seq::new(
            weights.len(),
            |j: int| Seq::new(weights[j].len(), |i: int| over_spec(weights[j][i], sum)),
        )
    }
}

/// The sample that the cell `(row, col)` of a `rows` by `cols` window centred
/// on `(x, y)` lies over. A cell that falls outside the image lies over the
/// nearest sample inside it.
pub open spec fn window_sample(
    plane: Plane,
    rows: int,
    cols: int,
    x: int,
    y: int,
    c: int,
    row: int,
    col: int,
) -> int {
    plane.at_clamped(x + col - cols / 2, y + row - rows / 2, c)
}

/// The running sum `acc` extended by the first `n` terms of row `row`.
pub open spec fn fold_row(term: spec_fn(int, int) -> int, acc: int, row: int, n: int) -> int
    decreases n,
{
    if n <= 0 {
        acc
    } else {
        plus_spec(fold_row(term, acc, row, n - 1), term(row, n - 1))
    }
}

/// The sum of the terms of the first `m` rows of `cols` cells each, taken row
/// by row and saturating at each step.
pub open spec fn fold_rows(term: spec_fn(int, int) -> int, cols: int, m: int) -> int
    decreases m,
{
    if m <= 0 {
        0
    } else {
        fold_row(term, fold_rows(term, cols, m - 1), m - 1, cols)
    }
}

/// The term that a kernel contributes at each cell: the sample under the cell
/// times the weight of the cell.
pub open spec fn kernel_term(weights: Weights, plane: Plane, x: int, y: int, c: int) -> spec_fn(
    int,
    int,
) -> int {
    |row: int, col: int|
        times_spec(
            window_sample(
                plane,
                weights.len() as int,
                weights[0].len() as int,
                x,
                y,
                c,
                row,
                col,
            ),
            weights[row][col],
        )
}

/// The response of a kernel at `(x, y, c)`: the sum over its cells of the
/// sample under the cell times the weight of the cell.
pub open spec fn convolve(weights: Weights, plane: Plane, x: int, y: int, c: int) -> int {
    fold_rows(
        kernel_term(weights, plane, x, y, c),
        weights[0].len() as int,
        weights.len() as int,
    )
}

/// A binary operator on two numbers.
#[derive(Clone, Copy, Debug, PartialEq, Eq, Structural)]
pub enum Combine {
    /// The sum.
    Add,
    /// The difference.
    Sub,
    /// The product.
    Mul,
    /// The quotient.
    Div,
    /// The remainder.
    Rem,
}

/// The result of the operator on two raw numbers.
pub open spec fn combine_spec(op: Combine, a: int, b: int) -> int {
    match op {
        Combine::Add => plus_spec(a, b),
        Combine::Sub => minus_spec(a, b),
        Combine::Mul => times_spec(a, b),
        Combine::Div => over_spec(a, b),
        Combine::Rem => modulo_spec(a, b),
    }
}

/// The term that a pair of kernels contributes at each cell of the first: the
/// operator applied to what each kernel alone contributes there.
pub open spec fn pair_term(
    op: Combine,
    a: Weights,
    b: Weights,
    plane: Plane,
    x: int,
    y: int,
    c: int,
) -> spec_fn(int, int) -> int {
    |row: int, col: int|
        {
            let sample = window_sample(
                plane,
                a.len() as int,
                a[0].len() as int,
                x,
                y,
                c,
                row,
                col,
            );
            combine_spec(op, times_spec(sample, a[row][col]), times_spec(sample, b[row][col]))
        }
}

/// The response of a pair of kernels at `(x, y, c)`: the sum of its terms over
/// the cells of the first kernel.
pub open spec fn convolve_pair(
    op: Combine,
    a: Weights,
    b: Weights,
    plane: Plane,
    x: int,
    y: int,
    c: int,
) -> int {
    fold_rows(pair_term(op, a, b, plane, x, y, c), a[0].len() as int, a.len() as int)
}

/// Whether a pair of kernels can be computed at `(x, y, c)`: the first
/// kernel has a centre cell, and the second kernel has a weight wherever the
/// first has one.
pub open spec fn pair_accepts(a: &Kernel, b: &Kernel, x: int, y: int, c: int, input: Seq<Plane>) -> bool {
    &&& input.len() >= 1
    &&& input[0].in_bounds(x, y, c)
    &&& a.wf()
    &&& b.wf()
    &&& a.rows % 2 == 1
    &&& a.cols % 2 == 1
    &&& a.rows <= b.rows
    &&& a.cols <= b.cols
}

/// A two-dimensional convolution filter.
#[derive(Debug, Clone, PartialEq)]
pub struct Kernel {
    /// The number of rows.
    pub rows: usize,
    /// The number of columns.
    pub cols: usize,
    /// The weights, row by row.
    pub data: Vec<Vec<Fixed>>,
}

impl View for Kernel {
    type V = Weights;

    open spec fn view(&self) -> Weights {
        Seq::new(
            self.data@.len(),
            |j: int| Seq::new(self.data@[j]@.len(), |i: int| self.data@[j]@[i]@),
        )
    }
}

/// The position `clamp_index(pos + step - half, n)` of a window cell along
/// one axis.
fn shifted(pos: usize, step: usize, half: usize, n: usize) -> (r: usize)
    requires
        n > 0,
    ensures
        r == clamp_index(pos + step - half, n as int),
{
    let p: u128 = pos as u128 + step as u128;
    if p < half as u128 {
        0
    } else if p - half as u128 >= n as u128 {
        n - 1
    } else {
        (p - half as u128) as usize
    }
}

/// Applies the operator to two numbers.
fn combine(op: Combine, a: Fixed, b: Fixed) -> (r: Fixed)
    ensures
        r@ == combine_spec(op, a@, b@),
{
    match op {
        Combine::Add => a.plus(b),
        Combine::Sub => a.minus(b),
        Combine::Mul => a.times(b),
        Combine::Div => a.over(b),
        Combine::Rem => a.modulo(b),
    }
}

/// The response of the pair of kernels `a` and `b` under the operator `op`.
fn compute_pair<T: Type, C: Color>(
    op: Combine,
    a: &Kernel,
    b: &Kernel,
    x: usize,
    y: usize,
    c: usize,
    input: &[&Image<T, C>],
) -> (r: Fixed)
    requires
        all_wf(input@),
        pair_accepts(a, b, x as int, y as int, c as int, planes(input@)),
    ensures
        r@ == convolve_pair(op, a@, b@, planes(input@)[0], x as int, y as int, c as int),
{
    assert(planes(input@)[0] == input@[0]@);
    assert(input@[0].wf());
    let image = input[0];
    let rows = a.rows;
    let cols = a.cols;
    let ghost plane = image@;
    let ghost term = pair_term(op, a@, b@, plane, x as int, y as int, c as int);
    assert(a@[0].len() == cols);
    let mut acc = Fixed::zero();
    let mut row: usize = 0;
    while row < rows
        invariant
            row <= rows,
            rows == a.rows,
            cols == a.cols,
            a.wf(),
            b.wf(),
            a.rows <= b.rows,
            a.cols <= b.cols,
            image.wf(),
            plane == image@,
            image.in_bounds(x as int, y as int, c as int),
            term == pair_term(op, a@, b@, plane, x as int, y as int, c as int),
            acc@ == fold_rows(term, cols as int, row as int),
        decreases rows - row,
    {
        let sy = shifted(y, row, rows / 2, image.height);
        assert(a.data@[row as int]@.len() == cols) by {
            assert(a@[row as int].len() == cols);
        }
        assert(b.data@[row as int]@.len() == b.cols) by {
            assert(b@[row as int].len() == b.cols);
        }
        let ka = &a.data[row];
        let kb = &b.data[row];
        let mut col: usize = 0;
        while col < cols
            invariant
                col <= cols,
                row < rows,
                rows == a.rows,
                cols == a.cols,
                a.wf(),
                b.wf(),
                a.rows <= b.rows,
                a.cols <= b.cols,
                image.wf(),
                plane == image@,
                image.in_bounds(x as int, y as int, c as int),
                sy == clamp_index(y + row - rows / 2, image.height as int),
                *ka == a.data@[row as int],
                *kb == b.data@[row as int],
                ka@.len() == cols,
                kb@.len() == b.cols,
                a@[0].len() == cols,
                term == pair_term(op, a@, b@, plane, x as int, y as int, c as int),
                acc@ == fold_row(
                    term,
                    fold_rows(term, cols as int, row as int),
                    row as int,
                    col as int,
                ),
            decreases cols - col,
        {
            let sx = shifted(x, col, cols / 2, image.width);
            let s = image.get_f(sx, sy, c);
            let ta = s.times(ka[col]);
            let tb = s.times(kb[col]);
            proof {
                assert(a@[row as int][col as int] == ka@[col as int]@);
                assert(b@[row as int][col as int] == kb@[col as int]@);
                assert(s@ == window_sample(
                    plane,
                    rows as int,
                    cols as int,
                    x as int,
                    y as int,
                    c as int,
                    row as int,
                    col as int,
                ));
                assert(term(row as int, col as int) == combine_spec(op, ta@, tb@));
            }
            acc = acc.plus(combine(op, ta, tb));
            col += 1;
        }
        row += 1;
    }
    acc
}

impl Kernel {
    /// The matrix has `rows` rows of `cols` weights each, and at least one
    /// weight.
    pub open spec fn wf(&self) -> bool {
        rectangular(self@, self.rows as int, self.cols as int)
    }

    /// The weight at `(row, col)`, as a raw fixed-point number.
    pub open spec fn weight(&self, row: int, col: int) -> int {
        self@[row][col]
    }

    /// A kernel with the given number of rows and columns and every weight at
    /// zero.
    pub fn new(rows: usize, cols: usize) -> (k: Kernel)
        requires
            rows > 0,
            cols > 0,
        ensures
            k.wf(),
            k.rows == rows,
            k.cols == cols,
            forall|j: int, i: int| 0 <= j < rows && 0 <= i < cols ==> k.weight(j, i) == 0,
    {
        let mut data: Vec<Vec<Fixed>> = Vec::new();
        let mut j: usize = 0;
        while j < rows
            invariant
                j <= rows,
                data@.len() == j,
                forall|r: int| 0 <= r < j ==> (#[trigger] data@[r])@.len() == cols,
                forall|r: int, i: int|
                    0 <= r < j && 0 <= i < cols ==> (#[trigger] data@[r]@[i])@ == 0,
            decreases rows - j,
        {
            let mut line: Vec<Fixed> = Vec::new();
            let mut i: usize = 0;
            while i < cols
                invariant
                    i <= cols,
                    line@.len() == i,
                    forall|t: int| 0 <= t < i ==> (#[trigger] line@[t])@ == 0,
                decreases cols - i,
            {
                line.push(Fixed::zero());
                i += 1;
            }
            data.push(line);
            j += 1;
        }
        Kernel { rows, cols, data }
    }

    /// A square kernel with every weight at zero.
    pub fn square(x: usize) -> (k: Kernel)
        requires
            x > 0,
        ensures
            k.wf(),
            k.rows == x,
            k.cols == x,
            forall|j: int, i: int| 0 <= j < x && 0 <= i < x ==> k.weight(j, i) == 0,
    {
        Kernel::new(x, x)
    }

    /// The sum of all weights.
    pub fn sum(&self) -> (s: Fixed)
        requires
            self.wf(),
        ensures
            s@ == weight_sum(self@),
    {
        let ghost sums = Seq::new(self@.len(), |j: int| seq_sum(self@[j]));
        let mut total = Fixed::zero();
        let mut j: usize = 0;
        while j < self.rows
            invariant
                j <= self.rows,
                self.wf(),
                sums == Seq::new(self@.len(), |j: int| seq_sum(self@[j])),
                total@ == seq_sum(sums.take(j as int)),
            decreases self.rows - j,
        {
            assert(self.data@[j as int]@.len() == self.cols) by {
                assert(self@[j as int].len() == self.cols);
            }
            let line = &self.data[j];
            let ghost weights = self@[j as int];
            let mut part = Fixed::zero();
            let mut i: usize = 0;
            while i < self.cols
                invariant
                    i <= self.cols,
                    j < self.rows,
                    self.wf(),
                    *line == self.data@[j as int],
                    line@.len() == self.cols,
                    weights == self@[j as int],
                    part@ == seq_sum(weights.take(i as int)),
                decreases self.cols - i,
            {
                proof {
                    assert(weights.take(i + 1).drop_last() == weights.take(i as int));
                    assert(weights.take(i + 1).last() == line@[i as int]@);
                }
                part = part.plus(line[i]);
                i += 1;
            }
            proof {
                assert(weights.take(self.cols as int) == weights);
                assert(sums.take(j + 1).drop_last() == sums.take(j as int));
                assert(sums.take(j + 1).last() == seq_sum(weights));
            }
            total = total.plus(part);
            j += 1;
        }
        proof {
            assert(sums.take(self.rows as int) == sums);
        }
        total
    }

    /// Divides every weight by the sum of all weights, so that they sum to
    /// one. A kernel whose weights sum to zero is left as it is.
    pub fn normalize(&mut self)
        requires
            old(self).wf(),
        ensures
            final(self).wf(),
            final(self).rows == old(self).rows,
            final(self).cols == old(self).cols,
            final(self)@ == normalized(old(self)@),
    {
        let sum = self.sum();
        if sum.raw == 0 {
            return ;
        }
        let ghost before = self@;
        let rows = self.rows;
        let cols = self.cols;
        let mut data: Vec<Vec<Fixed>> = Vec::new();
        let mut j: usize = 0;
        while j < rows
            invariant
                j <= rows,
                rows == self.rows,
                cols == self.cols,
                self.wf(),
                self@ == before,
                data@.len() == j,
                forall|r: int| 0 <= r < j ==> (#[trigger] data@[r])@.len() == cols,
                forall|r: int, i: int|
                    0 <= r < j && 0 <= i < cols ==> (#[trigger] data@[r]@[i])@ == over_spec(
                        before[r][i],
                        sum@,
                    ),
            decreases rows - j,
        {
            assert(self.data@[j as int]@.len() == cols) by {
                assert(self@[j as int].len() == cols);
            }
            let old_line = &self.data[j];
            let mut line: Vec<Fixed> = Vec::new();
            let mut i: usize = 0;
            while i < cols
                invariant
                    i <= cols,
                    j < rows,
                    rows == self.rows,
                    cols == self.cols,
                    self.wf(),
                    self@ == before,
                    *old_line == self.data@[j as int],
                    old_line@.len() == cols,
                    line@.len() == i,
                    forall|t: int|
                        0 <= t < i ==> (#[trigger] line@[t])@ == over_spec(
                            before[j as int][t],
                            sum@,
                        ),
                decreases cols - i,
            {
                assert(before[j as int][i as int] == old_line@[i as int]@);
                line.push(old_line[i].over(sum));
                i += 1;
            }
            data.push(line);
            j += 1;
        }
        self.data = data;
        proof {
            let after = self@;
            let expected = normalized(before);
            assert(after.len() == expected.len());
            assert forall|r: int| 0 <= r < after.len() implies after[r] == expected[r] by {
                assert(before[r].len() == cols);
                assert(after[r].len() == cols);
                assert(after[r] =~= expected[r]);
            }
            assert(after =~= expected);
        }
    }

    /// A kernel whose weight at row `j` and column `i` is `f(i, j)`.
    pub fn create<F: Fn(usize, usize) -> Fixed>(rows: usize, cols: usize, f: F) -> (k: Kernel)
        requires
            rows > 0,
            cols > 0,
            forall|i: usize, j: usize| i < cols && j < rows ==> call_requires(f, (i, j)),
        ensures
            k.wf(),
            k.rows == rows,
            k.cols == cols,
            forall|i: usize, j: usize|
                i < cols && j < rows ==> call_ensures(
                    f,
                    (i, j),
                    #[trigger] k.data@[j as int]@[i as int],
                ),
    {
        let mut data: Vec<Vec<Fixed>> = Vec::new();
        let mut j: usize = 0;
        while j < rows
            invariant
                j <= rows,
                data@.len() == j,
                forall|i: usize, j: usize| i < cols && j < rows ==> call_requires(f, (i, j)),
                forall|r: int| 0 <= r < j ==> (#[trigger] data@[r])@.len() == cols,
                forall|i: usize, r: usize|
                    i < cols && r < j ==> call_ensures(
                        f,
                        (i, r),
                        #[trigger] data@[r as int]@[i as int],
                    ),
            decreases rows - j,
        {
            let mut line: Vec<Fixed> = Vec::new();
            let mut i: usize = 0;
            while i < cols
                invariant
                    i <= cols,
                    j < rows,
                    line@.len() == i,
                    forall|i: usize, j: usize| i < cols && j < rows ==> call_requires(f, (i, j)),
                    forall|t: usize| t < i ==> call_ensures(f, (t, j), #[trigger] line@[t as int]),
                decreases cols - i,
            {
                let w = f(i, j);
                line.push(w);
                i += 1;
            }
            data.push(line);
            j += 1;
        }
        Kernel { rows, cols, data }
    }
}

/// A kernel as a filter. The window is centred on the pixel, so the kernel
/// must have a centre cell: an odd number of rows and of columns.
impl Filter for Kernel {
    open spec fn accepts(&self, x: int, y: int, c: int, input: Seq<Plane>) -> bool {
        &&& input.len() >= 1
        &&& input[0].in_bounds(x, y, c)
        &&& self.wf()
        &&& self.rows % 2 == 1
        &&& self.cols % 2 == 1
    }

    open spec fn response(&self, x: int, y: int, c: int, input: Seq<Plane>) -> int {
        convolve(self@, input[0], x, y, c)
    }

    fn compute_at<T: Type, C: Color>(
        &self,
        x: usize,
        y: usize,
        c: usize,
        input: &[&Image<T, C>],
    ) -> (r: Fixed) {
        assert(planes(input@)[0] == input@[0]@);
        assert(input@[0].wf());
        let image = input[0];
        let rows = self.rows;
        let cols = self.cols;
        let ghost plane = image@;
        let ghost term = kernel_term(self@, plane, x as int, y as int, c as int);
        assert(self@[0].len() == cols);
        let mut acc = Fixed::zero();
        let mut row: usize = 0;
        while row < rows
            invariant
                row <= rows,
                rows == self.rows,
                cols == self.cols,
                self.wf(),
                image.wf(),
                plane == image@,
                image.in_bounds(x as int, y as int, c as int),
                term == kernel_term(self@, plane, x as int, y as int, c as int),
                acc@ == fold_rows(term, cols as int, row as int),
            decreases rows - row,
        {
            let sy = shifted(y, row, rows / 2, image.height);
            assert(self.data@[row as int]@.len() == cols) by {
                assert(self@[row as int].len() == cols);
            }
            let line = &self.data[row];
            let mut col: usize = 0;
            while col < cols
                invariant
                    col <= cols,
                    row < rows,
                    rows == self.rows,
                    cols == self.cols,
                    self.wf(),
                    image.wf(),
                    plane == image@,
                    image.in_bounds(x as int, y as int, c as int),
                    sy == clamp_index(y + row - rows / 2, image.height as int),
                    *line == self.data@[row as int],
                    line@.len() == cols,
                    self@[0].len() == cols,
                    term == kernel_term(self@, plane, x as int, y as int, c as int),
                    acc@ == fold_row(
                        term,
                        fold_rows(term, cols as int, row as int),
                        row as int,
                        col as int,
                    ),
                decreases cols - col,
            {
                let sx = shifted(x, col, cols / 2, image.width);
                let s = image.get_f(sx, sy, c);
                let t = s.times(line[col]);
                proof {
                    assert(self@[row as int][col as int] == line@[col as int]@);
                    assert(s@ == window_sample(
                        plane,
                        rows as int,
                        cols as int,
                        x as int,
                        y as int,
                        c as int,
                        row as int,
                        col as int,
                    ));
                    assert(term(row as int, col as int) == t@);
                }
                acc = acc.plus(t);
                col += 1;
            }
            row += 1;
        }
        acc
    }
}

impl From<Vec<Vec<Fixed>>> for Kernel {
    /// The kernel with the given rows. It is well formed where the rows are
    /// of one length and hold at least one weight.
    fn from(data: Vec<Vec<Fixed>>) -> (k: Kernel) {
        let rows = data.len();
        let cols = if rows > 0 {
            data[0].len()
        } else {
            0
        };
        Kernel { rows, cols, data }
    }
}

impl vstd::std_specs::convert::FromSpecImpl<Vec<Vec<Fixed>>> for Kernel {
    open spec fn obeys_from_spec() -> bool {
        true
    }

    open spec fn from_spec(data: Vec<Vec<Fixed>>) -> Kernel {
        Kernel {
            rows: data@.len() as usize,
            cols: if data@.len() > 0 {
                data@[0]@.len() as usize
            } else {
                0
            },
            data,
        }
    }
}

/// The matrix that a slice of rows holds.
pub open spec fn slice_weights(data: &[&[Fixed]]) -> Weights {
    Seq::new(data@.len(), |j: int| Seq::new(data@[j]@.len(), |i: int| data@[j]@[i]@))
}

impl<'a> From<&'a [&'a [Fixed]]> for Kernel {
    /// The kernel with a copy of the given rows. It is well formed where the
    /// rows are of one length and hold at least one weight.
    fn from(data: &'a [&'a [Fixed]]) -> (k: Kernel)
        ensures
            k@ == slice_weights(data),
            k.rows == data@.len(),
            k.cols == (if data@.len() > 0 {
                data@[0]@.len()
            } else {
                0
            }),
    {
        let rows = data.len();
        let cols = if rows > 0 {
            data[0].len()
        } else {
            0
        };
        let mut v: Vec<Vec<Fixed>> = Vec::new();
        let mut j: usize = 0;
        while j < rows
            invariant
                j <= rows,
                rows == data@.len(),
                v@.len() == j,
                forall|r: int| 0 <= r < j ==> (#[trigger] v@[r])@ == data@[r]@,
            decreases rows - j,
        {
            let d = data[j];
            let n = d.len();
            let mut line: Vec<Fixed> = Vec::new();
            let mut i: usize = 0;
            while i < n
                invariant
                    i <= n,
                    n == d@.len(),
                    line@.len() == i,
                    forall|t: int| 0 <= t < i ==> line@[t] == d@[t],
                decreases n - i,
            {
                line.push(d[i]);
                i += 1;
            }
            assert(line@ =~= d@);
            v.push(line);
            j += 1;
        }
        let k = Kernel { rows, cols, data: v };
        proof {
            let expected = slice_weights(data);
            assert(k@.len() == expected.len());
            assert forall|r: int| 0 <= r < k@.len() implies k@[r] == expected[r] by {
                assert(k@[r] =~= expected[r]);
            }
            assert(k@ =~= expected);
        }
        k
    }
}

impl<'a> vstd::std_specs::convert::FromSpecImpl<&'a [&'a [Fixed]]> for Kernel {
    open spec fn obeys_from_spec() -> bool {
        false
    }

    open spec fn from_spec(data: &'a [&'a [Fixed]]) -> Kernel {
        arbitrary()
    }
}

/// The matrix that a square array holds.
pub open spec fn array_weights<const N: usize>(data: [[Fixed; N]; N]) -> Weights {
    Seq::new(N as nat, |j: int| Seq::new(N as nat, |i: int| data@[j]@[i]@))
}

impl<const N: usize> From<[[Fixed; N]; N]> for Kernel {
    /// The square kernel with the given rows. It is well formed where it
    /// holds at least one weight.
    fn from(data: [[Fixed; N]; N]) -> (k: Kernel)
        ensures
            k@ == array_weights(data),
            k.rows == N,
            k.cols == N,
            N > 0 ==> k.wf(),
    {
        let mut v: Vec<Vec<Fixed>> = Vec::new();
        let mut j: usize = 0;
        while j < N
            invariant
                j <= N,
                v@.len() == j,
                forall|r: int| 0 <= r < j ==> (#[trigger] v@[r])@.len() == N,
                forall|r: int, t: int|
                    0 <= r < j && 0 <= t < N ==> (#[trigger] v@[r]@[t]) == data@[r]@[t],
            decreases N - j,
        {
            let mut line: Vec<Fixed> = Vec::new();
            let mut i: usize = 0;
            while i < N
                invariant
                    i <= N,
                    j < N,
                    line@.len() == i,
                    forall|t: int| 0 <= t < i ==> line@[t] == data@[j as int]@[t],
                decreases N - i,
            {
                line.push(data[j][i]);
                i += 1;
            }
            v.push(line);
            j += 1;
        }
        let k = Kernel { rows: N, cols: N, data: v };
        proof {
            let expected = array_weights(data);
            assert(k@.len() == expected.len());
            assert forall|r: int| 0 <= r < k@.len() implies k@[r] == expected[r] by {
                assert(k@[r] =~= expected[r]);
            }
            assert(k@ =~= expected);
        }
        k
    }
}

impl<const N: usize> vstd::std_specs::convert::FromSpecImpl<[[Fixed; N]; N]> for Kernel {
    open spec fn obeys_from_spec() -> bool {
        false
    }

    open spec fn from_spec(data: [[Fixed; N]; N]) -> Kernel {
        arbitrary()
    }
}

/// The filter whose response is the sum over the cells of `a` of the sum
/// of what `a` and `b` each contribute at the cell.
pub struct Add {
    /// The first kernel, whose dimensions give the window.
    pub a: Kernel,
    /// The second kernel.
    pub b: Kernel,
}

impl Filter for Add {
    open spec fn accepts(&self, x: int, y: int, c: int, input: Seq<Plane>) -> bool {
        pair_accepts(&self.a, &self.b, x, y, c, input)
    }

    open spec fn response(&self, x: int, y: int, c: int, input: Seq<Plane>) -> int {
        convolve_pair(Combine::Add, self.a@, self.b@, input[0], x, y, c)
    }

    fn compute_at<T: Type, C: Color>(
        &self,
        x: usize,
        y: usize,
        c: usize,
        input: &[&Image<T, C>],
    ) -> (r: Fixed) {
        compute_pair(Combine::Add, &self.a, &self.b, x, y, c, input)
    }
}

impl core::ops::Add for Kernel {
    type Output = Add;

    /// Pairs two kernels into the filter `self + other`.
    fn add(self, other: Kernel) -> (r: Add) {
        Add { a: self, b: other }
    }
}

impl vstd::std_specs::ops::AddSpecImpl for Kernel {
    open spec fn obeys_add_spec() -> bool {
        true
    }

    open spec fn add_req(self, other: Kernel) -> bool {
        true
    }

    open spec fn add_spec(self, other: Kernel) -> Add {
        Add { a: self, b: other }
    }
}

/// The filter whose response is the sum over the cells of `a` of the difference
/// of what `a` and `b` each contribute at the cell.
pub struct Sub {
    /// The first kernel, whose dimensions give the window.
    pub a: Kernel,
    /// The second kernel.
    pub b: Kernel,
}

impl Filter for Sub {
    open spec fn accepts(&self, x: int, y: int, c: int, input: Seq<Plane>) -> bool {
        pair_accepts(&self.a, &self.b, x, y, c, input)
    }

    open spec fn response(&self, x: int, y: int, c: int, input: Seq<Plane>) -> int {
        convolve_pair(Combine::Sub, self.a@, self.b@, input[0], x, y, c)
    }

    fn compute_at<T: Type, C: Color>(
        &self,
        x: usize,
        y: usize,
        c: usize,
        input: &[&Image<T, C>],
    ) -> (r: Fixed) {
        compute_pair(Combine::Sub, &self.a, &self.b, x, y, c, input)
    }
}

impl core::ops::Sub for Kernel {
    type Output = Sub;

    /// Pairs two kernels into the filter `self - other`.
    fn sub(self, other: Kernel) -> (r: Sub) {
        Sub { a: self, b: other }
    }
}

impl vstd::std_specs::ops::SubSpecImpl for Kernel {
    open spec fn obeys_sub_spec() -> bool {
        true
    }

    open spec fn sub_req(self, other: Kernel) -> bool {
        true
    }

    open spec fn sub_spec(self, other: Kernel) -> Sub {
        Sub { a: self, b: other }
    }
}

/// The filter whose response is the sum over the cells of `a` of the product
/// of what `a` and `b` each contribute at the cell.
pub struct Mul {
    /// The first kernel, whose dimensions give the window.
    pub a: Kernel,
    /// The second kernel.
    pub b: Kernel,
}

impl Filter for Mul {
    open spec fn accepts(&self, x: int, y: int, c: int, input: Seq<Plane>) -> bool {
        pair_accepts(&self.a, &self.b, x, y, c, input)
    }

    open spec fn response(&self, x: int, y: int, c: int, input: Seq<Plane>) -> int {
        convolve_pair(Combine::Mul, self.a@, self.b@, input[0], x, y, c)
    }

    fn compute_at<T: Type, C: Color>(
        &self,
        x: usize,
        y: usize,
        c: usize,
        input: &[&Image<T, C>],
    ) -> (r: Fixed) {
        compute_pair(Combine::Mul, &self.a, &self.b, x, y, c, input)
    }
}

impl core::ops::Mul for Kernel {
    type Output = Mul;

    /// Pairs two kernels into the filter `self * other`.
    fn mul(self, other: Kernel) -> (r: Mul) {
        Mul { a: self, b: other }
    }
}

impl vstd::std_specs::ops::MulSpecImpl for Kernel {
    open spec fn obeys_mul_spec() -> bool {
        true
    }

    open spec fn mul_req(self, other: Kernel) -> bool {
        true
    }

    open spec fn mul_spec(self, other: Kernel) -> Mul {
        Mul { a: self, b: other }
    }
}

/// The filter whose response is the sum over the cells of `a` of the quotient
/// of what `a` and `b` each contribute at the cell.
pub struct Div {
    /// The first kernel, whose dimensions give the window.
    pub a: Kernel,
    /// The second kernel.
    pub b: Kernel,
}

impl Filter for Div {
    open spec fn accepts(&self, x: int, y: int, c: int, input: Seq<Plane>) -> bool {
        pair_accepts(&self.a, &self.b, x, y, c, input)
    }

    open spec fn response(&self, x: int, y: int, c: int, input: Seq<Plane>) -> int {
        convolve_pair(Combine::Div, self.a@, self.b@, input[0], x, y, c)
    }

    fn compute_at<T: Type, C: Color>(
        &self,
        x: usize,
        y: usize,
        c: usize,
        input: &[&Image<T, C>],
    ) -> (r: Fixed) {
        compute_pair(Combine::Div, &self.a, &self.b, x, y, c, input)
    }
}

impl core::ops::Div for Kernel {
    type Output = Div;

    /// Pairs two kernels into the filter `self / other`.
    fn div(self, other: Kernel) -> (r: Div) {
        Div { a: self, b: other }
    }
}

impl vstd::std_specs::ops::DivSpecImpl for Kernel {
    open spec fn obeys_div_spec() -> bool {
        true
    }

    open spec fn div_req(self, other: Kernel) -> bool {
        true
    }

    open spec fn div_spec(self, other: Kernel) -> Div {
        Div { a: self, b: other }
    }
}

/// The filter whose response is the sum over the cells of `a` of the remainder
/// of what `a` and `b` each contribute at the cell.
pub struct Rem {
    /// The first kernel, whose dimensions give the window.
    pub a: Kernel,
    /// The second kernel.
    pub b: Kernel,
}

impl Filter for Rem {
    open spec fn accepts(&self, x: int, y: int, c: int, input: Seq<Plane>) -> bool {
        pair_accepts(&self.a, &self.b, x, y, c, input)
    }

    open spec fn response(&self, x: int, y: int, c: int, input: Seq<Plane>) -> int {
        convolve_pair(Combine::Rem, self.a@, self.b@, input[0], x, y, c)
    }

    fn compute_at<T: Type, C: Color>(
        &self,
        x: usize,
        y: usize,
        c: usize,
        input: &[&Image<T, C>],
    ) -> (r: Fixed) {
        compute_pair(Combine::Rem, &self.a, &self.b, x, y, c, input)
    }
}

impl core::ops::Rem for Kernel {
    type Output = Rem;

    /// Pairs two kernels into the filter `self % other`.
    fn rem(self, other: Kernel) -> (r: Rem) {
        Rem { a: self, b: other }
    }
}

impl vstd::std_specs::ops::RemSpecImpl for Kernel {
    open spec fn obeys_rem_spec() -> bool {
        true
    }

    open spec fn rem_req(self, other: Kernel) -> bool {
        true
    }

    open spec fn rem_spec(self, other: Kernel) -> Rem {
        Rem { a: self, b: other }
    }
}

/// The raw weights of the horizontal Sobel kernel.
pub open spec fn sobel_x_weights() -> Weights {
    seq![
        seq![SCALE as int, 0, -SCALE],
        seq![2 * SCALE, 0, -2 * SCALE],
        seq![SCALE as int, 0, -SCALE],
    ]
}

/// The raw weights of the vertical Sobel kernel.
pub open spec fn sobel_y_weights() -> Weights {
    seq![
        seq![SCALE as int, 2 * SCALE, SCALE as int],
        seq![0, 0, 0],
        seq![-SCALE, -2 * SCALE, -SCALE],
    ]
}

/// The horizontal Sobel kernel, which responds to vertical edges.
pub fn sobel_x() -> (k: Kernel)
    ensures
        k.wf(),
        k.rows == 3,
        k.cols == 3,
        k@ == sobel_x_weights(),
{
    let data = [
        [Fixed::from_int(1), Fixed::from_int(0), Fixed::from_int(-1)],
        [Fixed::from_int(2), Fixed::from_int(0), Fixed::from_int(-2)],
        [Fixed::from_int(1), Fixed::from_int(0), Fixed::from_int(-1)],
    ];
    let k = Kernel::from(data);
    proof {
        let expected = sobel_x_weights();
        assert forall|r: int| 0 <= r < 3 implies k@[r] == expected[r] by {
            assert(k@[r] =~= expected[r]);
        }
        assert(k@ =~= expected);
    }
    k
}

/// The vertical Sobel kernel, which responds to horizontal edges.
pub fn sobel_y() -> (k: Kernel)
    ensures
        k.wf(),
        k.rows == 3,
        k.cols == 3,
        k@ == sobel_y_weights(),
{
    let data = [
        [Fixed::from_int(1), Fixed::from_int(2), Fixed::from_int(1)],
        [Fixed::from_int(0), Fixed::from_int(0), Fixed::from_int(0)],
        [Fixed::from_int(-1), Fixed::from_int(-2), Fixed::from_int(-1)],
    ];
    let k = Kernel::from(data);
    proof {
        let expected = sobel_y_weights();
        assert forall|r: int| 0 <= r < 3 implies k@[r] == expected[r] by {
            assert(k@[r] =~= expected[r]);
        }
        assert(k@ =~= expected);
    }
    k
}

/// The Sobel filter: the sum of the horizontal and the vertical Sobel kernel.
pub fn sobel() -> (f: Add)
    ensures
        f.a.wf(),
        f.b.wf(),
        f.a.rows == 3,
        f.a.cols == 3,
        f.b.rows == 3,
        f.b.cols == 3,
        f.a@ == sobel_x_weights(),
        f.b@ == sobel_y_weights(),
{
    sobel_x() + sobel_y()
}

/// Whether the matrix has an odd number of rows and of columns, the weight
/// `1.0` at its centre and the weight `0.0` everywhere else.
pub open spec fn is_identity(weights: Weights) -> bool {
    &&& weights.len() > 0
    &&& rectangular(weights, weights.len() as int, weights[0].len() as int)
    &&& weights.len() % 2 == 1
    &&& weights[0].len() % 2 == 1
    &&& forall|j: int, i: int|
        0 <= j < weights.len() && 0 <= i < weights[0].len() ==> #[trigger] weights[j][i] == (if j
            == weights.len() / 2 && i == weights[0].len() / 2 {
            SCALE as int
        } else {
            0
        })
}

/// Any number times zero is zero.
pub proof fn lemma_times_zero(a: int)
    ensures
        times_spec(a, 0) == 0,
{
    assert(a * 0 == 0) by (nonlinear_arith);
    assert(0x1_0000_0000int / 0x2_0000_0000int == 0);
    assert(round_div(0, SCALE as int) == 0);
}

/// A representable number times one is the number.
pub proof fn lemma_times_one(a: int)
    requires
        i64::MIN <= a <= i64::MAX,
    ensures
        times_spec(a, SCALE as int) == a,
{
    let p = a * 0x1_0000_0000int;
    assert(a * SCALE as int == p);
    if a >= 0 {
        assert(2 * p + 0x1_0000_0000int == 0x2_0000_0000int * a + 0x1_0000_0000int);
        assert((2 * p + 0x1_0000_0000int) / 0x2_0000_0000int == a);
    } else {
        assert(2 * (-p) + 0x1_0000_0000int == 0x2_0000_0000int * (-a) + 0x1_0000_0000int);
        assert((2 * (-p) + 0x1_0000_0000int) / 0x2_0000_0000int == -a);
    }
}

/// What an identity kernel has summed up after the first `n` cells of a row:
/// nothing in any row but the middle one, and there the sample under the
/// centre once the centre is passed.
pub proof fn lemma_identity_row(
    weights: Weights,
    plane: Plane,
    x: int,
    y: int,
    c: int,
    acc: int,
    row: int,
    n: int,
)
    requires
        is_identity(weights),
        plane.wf(),
        plane.in_bounds(x, y, c),
        0 <= row < weights.len(),
        0 <= n <= weights[0].len(),
        i64::MIN <= acc <= i64::MAX,
        row == weights.len() / 2 ==> acc == 0,
    ensures
        fold_row(kernel_term(weights, plane, x, y, c), acc, row, n) == (if row == weights.len() / 2
            && n > weights[0].len() / 2 {
            plane.at(x, y, c)
        } else {
            acc
        }),
    decreases n,
{
    if n > 0 {
        let term = kernel_term(weights, plane, x, y, c);
        let rows = weights.len() as int;
        let cols = weights[0].len() as int;
        lemma_identity_row(weights, plane, x, y, c, acc, row, n - 1);
        let s = window_sample(plane, rows, cols, x, y, c, row, n - 1);
        assert(term(row, n - 1) == times_spec(s, weights[row][n - 1]));
        lemma_offset_in_range(
            plane.width as int,
            plane.height as int,
            plane.channels as int,
            x,
            y,
            c,
        );
        if row == rows / 2 && n - 1 == cols / 2 {
            assert(s == plane.at(x, y, c));
            lemma_times_one(s);
        } else {
            lemma_times_zero(s);
        }
    }
}

/// What an identity kernel has summed up after its first `m` rows.
pub proof fn lemma_identity_rows(weights: Weights, plane: Plane, x: int, y: int, c: int, m: int)
    requires
        is_identity(weights),
        plane.wf(),
        plane.in_bounds(x, y, c),
        0 <= m <= weights.len(),
    ensures
        fold_rows(kernel_term(weights, plane, x, y, c), weights[0].len() as int, m) == (if m
            > weights.len() / 2 {
            plane.at(x, y, c)
        } else {
            0
        }),
    decreases m,
{
    if m > 0 {
        lemma_identity_rows(weights, plane, x, y, c, m - 1);
        lemma_offset_in_range(
            plane.width as int,
            plane.height as int,
            plane.channels as int,
            x,
            y,
            c,
        );
        let acc = fold_rows(kernel_term(weights, plane, x, y, c), weights[0].len() as int, m - 1);
        lemma_identity_row(weights, plane, x, y, c, acc, m - 1, weights[0].len() as int);
    }
}

/// The response of an identity kernel is the sample at the same place.
pub proof fn lemma_identity_response(weights: Weights, plane: Plane, x: int, y: int, c: int)
    requires
        is_identity(weights),
        plane.wf(),
        plane.in_bounds(x, y, c),
    ensures
        convolve(weights, plane, x, y, c) == plane.at(x, y, c),
{
    lemma_identity_rows(weights, plane, x, y, c, weights.len() as int);
}

/// The law of the identity kernel: an image filled from the responses of an
/// identity kernel to an image of the same dimensions holds, at every place,
/// the sample nearest to the normalized sample of that image.
pub proof fn lemma_identity_converts<T: Type, C: Color, U: Type>(
    kernel: &Kernel,
    input: &Image<T, C>,
    output: &Image<U, C>,
)
    requires
        is_identity(kernel@),
        input.wf(),
        output.wf(),
        output.same_shape(input),
        forall|x: int, y: int, c: int|
            output.in_bounds(x, y, c) ==> #[trigger] output.sample(x, y, c) == U::denorm(
                clamp_unit(kernel.response(x, y, c, seq![input@])),
            ),
    ensures
        output.data@.len() == input.data@.len(),
        forall|i: int|
            0 <= i < input.data@.len() ==> #[trigger] output.data@[i] == U::denorm(
                input.data@[i].norm(),
            ),
{
    C::lemma_channels();
    input.lemma_view_wf();
    let width = input.width as int;
    let height = input.height as int;
    let channels = C::spec_channels() as int;
    assert forall|i: int| 0 <= i < input.data@.len() implies #[trigger] output.data@[i]
        == U::denorm(input.data@[i].norm()) by {
        lemma_coordinates(width, height, channels, i);
        let (x, y, c) = coordinates(width, channels, i);
        assert(output.in_bounds(x, y, c));
        assert(output.sample(x, y, c) == output.data@[i]);
        lemma_identity_response(kernel@, input@, x, y, c);
        assert(seq![input@][0] == input@);
        T::lemma_norm_is_unit(input.data@[i]);
    }
}

/// An image filled from the responses of an identity kernel to an image of
/// the same type and dimensions is that image.
pub proof fn lemma_identity_reproduces<T: Type, C: Color>(
    kernel: &Kernel,
    input: &Image<T, C>,
    output: &Image<T, C>,
)
    requires
        is_identity(kernel@),
        input.wf(),
        output.wf(),
        output.same_shape(input),
        forall|x: int, y: int, c: int|
            output.in_bounds(x, y, c) ==> #[trigger] output.sample(x, y, c) == T::denorm(
                clamp_unit(kernel.response(x, y, c, seq![input@])),
            ),
    ensures
        output.data@ == input.data@,
{
    lemma_identity_converts(kernel, input, output);
    assert forall|i: int| 0 <= i < output.data@.len() implies output.data@[i] == input.data@[i] by {
        T::lemma_round_trip(input.data@[i]);
    }
    assert(output.data@ =~= input.data@);
}

/// The sum of the first `n` weights of a row, without saturation.
pub open spec fn row_weight(weights: Weights, row: int, n: int) -> int
    decreases n,
{
    if n <= 0 {
        0
    } else {
        row_weight(weights, row, n - 1) + weights[row][n - 1]
    }
}

/// The sum of all weights of the first `m` rows, without saturation.
pub open spec fn total_weight(weights: Weights, m: int) -> int
    decreases m,
{
    if m <= 0 {
        0
    } else {
        total_weight(weights, m - 1) + row_weight(weights, m - 1, weights[0].len() as int)
    }
}

/// Whether the matrix takes an average: no weight is negative and all
/// weights together are exactly `1.0`.
pub open spec fn is_average(weights: Weights) -> bool {
    &&& weights.len() > 0
    &&& rectangular(weights, weights.len() as int, weights[0].len() as int)
    &&& forall|j: int, i: int|
        0 <= j < weights.len() && 0 <= i < weights[0].len() ==> 0 <= #[trigger] weights[j][i]
    &&& total_weight(weights, weights.len() as int) == SCALE
}

/// Whether every pixel of the image has the normalized value `v` in channel
/// `c`.
pub open spec fn constant_channel(plane: Plane, c: int, v: int) -> bool {
    forall|x: int, y: int|
        0 <= x < plane.width && 0 <= y < plane.height ==> #[trigger] plane.at(x, y, c) == v
}

/// A unit value times a weight that is not negative lies between zero and
/// the weight, within half a step of the exact product.
pub proof fn lemma_times_bound(v: int, w: int)
    requires
        0 <= v <= SCALE,
        0 <= w <= i64::MAX,
    ensures
        0 <= times_spec(v, w) <= w,
        -0x1_0000_0000 <= 0x2_0000_0000 * times_spec(v, w) - 2 * (v * w) <= 0x1_0000_0000,
{
    let p = v * w;
    assert(0 <= p <= 0x1_0000_0000 * w) by (nonlinear_arith)
        requires
            p == v * w,
            0 <= v <= 0x1_0000_0000,
            0 <= w,
    ;
    let q = (2 * p + 0x1_0000_0000int) / 0x2_0000_0000int;
    assert(round_div(p, SCALE as int) == q);
    assert(0 <= q <= w);
}

/// The sum of the first weights of a row is not negative and no more than
/// the sum of the whole row.
pub proof fn lemma_row_weight_grows(weights: Weights, row: int, n: int)
    requires
        is_average(weights),
        0 <= row < weights.len(),
        0 <= n <= weights[0].len(),
    ensures
        0 <= row_weight(weights, row, n) <= row_weight(weights, row, weights[0].len() as int),
    decreases weights[0].len() - n,
{
    if n < weights[0].len() {
        lemma_row_weight_grows(weights, row, n + 1);
        assert(0 <= weights[row][n]);
    }
    lemma_row_weight_positive(weights, row, n);
}

/// The sum of the first weights of a row is not negative.
pub proof fn lemma_row_weight_positive(weights: Weights, row: int, n: int)
    requires
        is_average(weights),
        0 <= row < weights.len(),
        0 <= n <= weights[0].len(),
    ensures
        0 <= row_weight(weights, row, n),
    decreases n,
{
    if n > 0 {
        lemma_row_weight_positive(weights, row, n - 1);
        assert(0 <= weights[row][n - 1]);
    }
}

/// The sum of the first rows is not negative and no more than `1.0`.
pub proof fn lemma_total_weight_grows(weights: Weights, m: int)
    requires
        is_average(weights),
        0 <= m <= weights.len(),
    ensures
        0 <= total_weight(weights, m) <= SCALE,
    decreases weights.len() - m,
{
    if m < weights.len() {
        lemma_total_weight_grows(weights, m + 1);
        lemma_row_weight_grows(weights, m, weights[0].len() as int);
    }
    lemma_total_weight_positive(weights, m);
}

/// The sum of the first rows is not negative.
pub proof fn lemma_total_weight_positive(weights: Weights, m: int)
    requires
        is_average(weights),
        0 <= m <= weights.len(),
    ensures
        0 <= total_weight(weights, m),
    decreases m,
{
    if m > 0 {
        lemma_total_weight_positive(weights, m - 1);
        lemma_row_weight_grows(weights, m - 1, weights[0].len() as int);
    }
}

/// What an averaging kernel has summed up over a constant channel after the
/// first `n` cells of a row: it stays within half a step for each cell of
/// the constant times the weights so far.
pub proof fn lemma_average_row(
    weights: Weights,
    plane: Plane,
    x: int,
    y: int,
    c: int,
    v: int,
    acc: int,
    cells: int,
    row: int,
    n: int,
)
    requires
        is_average(weights),
        plane.wf(),
        plane.in_bounds(x, y, c),
        constant_channel(plane, c, v),
        0 <= row < weights.len(),
        0 <= n <= weights[0].len(),
        0 <= cells,
        0 <= acc <= total_weight(weights, row),
        -cells * 0x1_0000_0000 <= 0x2_0000_0000 * acc - 2 * (v * total_weight(weights, row))
            <= cells * 0x1_0000_0000,
    ensures
        0 <= fold_row(kernel_term(weights, plane, x, y, c), acc, row, n) <= total_weight(
            weights,
            row,
        ) + row_weight(weights, row, n),
        -(cells + n) * 0x1_0000_0000 <= 0x2_0000_0000 * fold_row(
            kernel_term(weights, plane, x, y, c),
            acc,
            row,
            n,
        ) - 2 * (v * (total_weight(weights, row) + row_weight(weights, row, n))) <= (cells + n)
            * 0x1_0000_0000,
    decreases n,
{
    let term = kernel_term(weights, plane, x, y, c);
    let before = total_weight(weights, row);
    if n > 0 {
        lemma_average_row(weights, plane, x, y, c, v, acc, cells, row, n - 1);
        let rows = weights.len() as int;
        let cols = weights[0].len() as int;
        let w = weights[row][n - 1];
        let sample = window_sample(plane, rows, cols, x, y, c, row, n - 1);
        assert(sample == v);
        assert(term(row, n - 1) == times_spec(v, w));
        lemma_offset_in_range(
            plane.width as int,
            plane.height as int,
            plane.channels as int,
            x,
            y,
            c,
        );
        assert(0 <= v <= SCALE) by {
            assert(plane.at(x, y, c) == v);
        }
        lemma_row_weight_grows(weights, row, n);
        lemma_row_weight_positive(weights, row, n - 1);
        lemma_total_weight_grows(weights, row + 1);
        lemma_total_weight_positive(weights, row);
        assert(0 <= w);
        lemma_times_bound(v, w);
        let so_far = before + row_weight(weights, row, n - 1);
        assert(v * (so_far + w) == v * so_far + v * w) by (nonlinear_arith);
    } else {
        assert(v * (before + 0) == v * before);
    }
}

/// What an averaging kernel has summed up over a constant channel after its
/// first `m` rows.
pub proof fn lemma_average_rows(weights: Weights, plane: Plane, x: int, y: int, c: int, v: int, m: int)
    requires
        is_average(weights),
        plane.wf(),
        plane.in_bounds(x, y, c),
        constant_channel(plane, c, v),
        0 <= m <= weights.len(),
    ensures
        0 <= fold_rows(kernel_term(weights, plane, x, y, c), weights[0].len() as int, m)
            <= total_weight(weights, m),
        -(m * weights[0].len()) * 0x1_0000_0000 <= 0x2_0000_0000 * fold_rows(
            kernel_term(weights, plane, x, y, c),
            weights[0].len() as int,
            m,
        ) - 2 * (v * total_weight(weights, m)) <= (m * weights[0].len()) * 0x1_0000_0000,
    decreases m,
{
    let cols = weights[0].len() as int;
    if m > 0 {
        lemma_average_rows(weights, plane, x, y, c, v, m - 1);
        let acc = fold_rows(kernel_term(weights, plane, x, y, c), cols, m - 1);
        assert(0 <= (m - 1) * cols && m * cols == (m - 1) * cols + cols) by (nonlinear_arith)
            requires
                m >= 1,
                cols >= 0,
        ;
        lemma_average_row(weights, plane, x, y, c, v, acc, (m - 1) * cols, m - 1, cols);
    } else {
        assert(m * cols == 0) by (nonlinear_arith)
            requires
                m == 0,
        ;
        assert(v * 0 == 0);
    }
}

/// The law of the average: where every pixel has the same value in a
/// channel, the response there of a kernel whose weights are not negative
/// and sum to exactly `1.0` is that value, within half a step of the
/// fixed-point numbers for each cell of the kernel. Such a kernel keeps the
/// mean of a constant channel.
pub proof fn lemma_average_keeps_constant(
    weights: Weights,
    plane: Plane,
    x: int,
    y: int,
    c: int,
    v: int,
)
    requires
        is_average(weights),
        plane.wf(),
        plane.in_bounds(x, y, c),
        constant_channel(plane, c, v),
    ensures
        2 * (convolve(weights, plane, x, y, c) - v) <= weights.len() * weights[0].len(),
        2 * (v - convolve(weights, plane, x, y, c)) <= weights.len() * weights[0].len(),
{
    let rows = weights.len() as int;
    let cols = weights[0].len() as int;
    lemma_average_rows(weights, plane, x, y, c, v, rows);
    let r = convolve(weights, plane, x, y, c);
    let cells = rows * cols;
    assert(v * total_weight(weights, rows) == v * 0x1_0000_0000int);
    assert(-cells * 0x1_0000_0000 <= 0x2_0000_0000 * r - 2 * (v * 0x1_0000_0000int) <= cells
        * 0x1_0000_0000);
}

} // verus!
