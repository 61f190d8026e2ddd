use vstd::prelude::*;

verus! {

/// A dense matrix of 64-bit samples held in an `ndarray::Array2<u64>`.
///
/// A sample is the bit pattern of an IEEE-754 binary64 value; the library
/// moves samples around and orders them but never does arithmetic on them.
/// The storage is hidden from the verifier: everything known about a grid
/// comes from the contracts of the private `raw_*` functions below, which
/// are stated over [`grid_cells`] and [`grid_width`].
#[verifier::external_body]
pub struct Grid {
    cells: ndarray::Array2<u64>,
}

/// `ndarray::ShapeError`, carried through as an opaque value.
#[verifier::external_type_specification]
#[verifier::external_body]
pub struct ExShapeError(ndarray::ShapeError);

/// The rows of the array inside `g`, first row first.
pub uninterp spec fn grid_cells(g: Grid) -> Seq<Seq<u64>>;

/// The length of axis 1 of the array inside `g` (also defined when it has no rows).
pub uninterp spec fn grid_width(g: Grid) -> nat;

/// Whether `ndarray` can represent an array of this shape: the product of
/// its non-zero axis lengths must not exceed `isize::MAX`.
pub open spec fn shape_fits(rows: nat, cols: nat) -> bool {
    (if rows == 0 { 1 } else { rows }) * (if cols == 0 { 1 } else { cols }) <= isize::MAX
}

/// A `rows` x `cols` matrix whose cell `(i, j)` is `f(i, j)`.
pub open spec fn matrix(rows: nat, cols: nat, f: spec_fn(int, int) -> u64) -> Seq<Seq<u64>> {
    Seq::new(rows, |i: int| Seq::new(cols, |j: int| f(i, j)))
}

impl View for Grid {
    type V = Seq<Seq<u64>>;

    /// The contents as `height()` rows of exactly `width()` samples each.
    open spec fn view(&self) -> Seq<Seq<u64>> {
        matrix(self.height(), self.width(), |i: int, j: int| self.at(i, j))
    }
}

impl Grid {
    /// Number of rows.
    pub open spec fn height(&self) -> nat {
        grid_cells(*self).len()
    }

    /// Number of columns.
    pub open spec fn width(&self) -> nat {
        grid_width(*self)
    }

    /// The sample in row `i`, column `j`.
    pub open spec fn at(&self, i: int, j: int) -> u64 {
        grid_cells(*self)[i][j]
    }

    /// Column `j`, top to bottom.
    pub open spec fn column(&self, j: int) -> Seq<u64> {
        Seq::new(self.height(), |i: int| self.at(i, j))
    }

    /// Calls `ArrayBase::nrows`, the length of axis 0.
    #[verifier::external_body]
    pub(crate) fn raw_rows(&self) -> (r: usize)
        ensures
            r == grid_cells(*self).len(),
    {
        self.cells.nrows()
    }

    /// Calls `ArrayBase::ncols`, the length of axis 1.
    #[verifier::external_body]
    pub(crate) fn raw_cols(&self) -> (c: usize)
        ensures
            c == grid_width(*self),
    {
        self.cells.ncols()
    }

    /// Indexes the array with `[[i, j]]`, which panics outside its bounds;
    /// inside them it yields the element at row `i`, column `j`.
    #[verifier::external_body]
    pub(crate) fn raw_get(&self, i: usize, j: usize) -> (v: u64)
        requires
            i < self.height(),
            j < self.width(),
        ensures
            v == self.at(i as int, j as int),
    {
        self.cells[[i, j]]
    }

    /// Assigns through `[[i, j]]` (`IndexMut`): the shape stays, the element
    /// at row `i`, column `j` becomes `v`, every other element is kept.
    #[verifier::external_body]
    pub(crate) fn raw_set(&mut self, i: usize, j: usize, v: u64)
        requires
            i < old(self).height(),
            j < old(self).width(),
        ensures
            final(self).height() == old(self).height(),
            final(self).width() == old(self).width(),
            final(self)@ == old(self)@.update(i as int, old(self)@[i as int].update(j as int, v)),
    {
        self.cells[[i, j]] = v;
    }

    /// Calls `Array2::from_elem((rows, cols), value)`: an array of that shape
    /// with every element equal to `value`. It panics when the product of the
    /// non-zero axis lengths overflows `isize`, which `requires` rules out.
    #[verifier::external_body]
    pub(crate) fn raw_filled(rows: usize, cols: usize, value: u64) -> (g: Grid)
        requires
            shape_fits(rows as nat, cols as nat),
        ensures
            g.height() == rows,
            g.width() == cols,
            g@ == matrix(rows as nat, cols as nat, |i: int, j: int| value),
    {
        Grid { cells: ndarray::Array2::from_elem((rows, cols), value) }
    }

    /// Calls `ArrayBase::select(Axis(1), picks)`: a fresh array with the same
    /// rows whose column `k` is a copy of column `picks[k]`. It panics on an
    /// index out of bounds and when the result would be too large.
    #[verifier::external_body]
    pub(crate) fn raw_select_columns(&self, picks: &Vec<usize>) -> (g: Grid)
        requires
            forall|k: int| 0 <= k < picks.len() ==> picks[k] < self.width(),
            shape_fits(self.height(), picks.len() as nat),
        ensures
            g.height() == self.height(),
            g.width() == picks.len(),
            g@ == matrix(self.height(), picks.len() as nat, |i: int, k: int| self.at(i, picks[k] as int)),
    {
        Grid { cells: self.cells.select(ndarray::Axis(1), picks.as_slice()) }
    }

    /// Calls `ndarray::concatenate(Axis(axis), &[a.view(), b.view()])`.
    /// It succeeds exactly when `axis` is 0 or 1, the two arrays agree in the
    /// other axis and the joined shape is representable; `b` then follows `a`
    /// along `axis`.
    #[verifier::external_body]
    pub(crate) fn raw_concatenate(axis: usize, a: &Grid, b: &Grid) -> (r: Result<Grid, ndarray::ShapeError>)
        ensures
            r is Ok <==> joinable(axis, a, b),
            r is Ok ==> r->Ok_0.height() == joined_height(axis, a, b)
                && r->Ok_0.width() == joined_width(axis, a, b)
                && r->Ok_0@ == joined(axis, a, b),
    {
        match ndarray::concatenate(ndarray::Axis(axis), &[a.cells.view(), b.cells.view()]) {
            Ok(cells) => Ok(Grid { cells }),
            Err(e) => Err(e),
        }
    }
}

/// The rows of `v` as a sequence of sequences.
pub open spec fn rows_of(v: &Vec<Vec<u64>>) -> Seq<Seq<u64>> {
    Seq::new(v.len() as nat, |i: int| v[i]@)
}

/// Whether every row of `v` is as long as its first.
pub open spec fn rectangular(v: &Vec<Vec<u64>>) -> bool {
    forall|i: int| 0 <= i < v.len() ==> (#[trigger] v[i]).len() == v[0].len()
}

/// The common row length of a rectangular `v`; 0 when it has no rows.
pub open spec fn row_length(v: &Vec<Vec<u64>>) -> nat {
    if v.len() == 0 { 0 } else { v[0].len() as nat }
}

/// Decides [`shape_fits`].
pub fn fits(rows: usize, cols: usize) -> (ok: bool)
    ensures
        ok == shape_fits(rows as nat, cols as nat),
{
    let r: usize = if rows == 0 { 1 } else { rows };
    let c: usize = if cols == 0 { 1 } else { cols };
    match r.checked_mul(c) {
        Some(p) => p <= isize::MAX as usize,
        None => false,
    }
}

impl Grid {
    /// Number of rows.
    pub fn rows(&self) -> (r: usize)
        ensures
            r == self.height(),
    {
        self.raw_rows()
    }

    /// Number of columns.
    pub fn cols(&self) -> (c: usize)
        ensures
            c == self.width(),
    {
        self.raw_cols()
    }

    /// The sample at row `i`, column `j`, or `None` outside the grid.
    pub fn get(&self, i: usize, j: usize) -> (r: Option<u64>)
        ensures
            r == (if i < self.height() && j < self.width() {
                Some(self.at(i as int, j as int))
            } else {
                None
            }),
    {
        if i < self.raw_rows() && j < self.raw_cols() {
            Some(self.raw_get(i, j))
        } else {
            None
        }
    }

    /// Overwrites one cell and leaves every other cell as it was.
    pub(crate) fn put(&mut self, i: usize, j: usize, v: u64)
        requires
            i < old(self).height(),
            j < old(self).width(),
        ensures
            final(self).height() == old(self).height(),
            final(self).width() == old(self).width(),
            forall|a: int, b: int|
                0 <= a < old(self).height() && 0 <= b < old(self).width() ==> #[trigger] final(self).at(a, b) == (if a == i
                    && b == j {
                    v
                } else {
                    old(self).at(a, b)
                }),
    {
        let ghost before = *self;
        self.raw_set(i, j, v);
        proof {
            assert forall|a: int, b: int|
                0 <= a < before.height() && 0 <= b < before.width() implies #[trigger] self.at(a, b) == (if a == i
                && b == j {
                v
            } else {
                before.at(a, b)
            }) by {
                assert(self@[a][b] == self.at(a, b));
                assert(before@[a][b] == before.at(a, b));
            }
        }
    }

    /// Writes `v` at row `i`, column `j` if that cell exists and says whether
    /// it did; no other cell changes.
    pub fn set(&mut self, i: usize, j: usize, v: u64) -> (done: bool)
        ensures
            done == (i < old(self).height() && j < old(self).width()),
            final(self).height() == old(self).height(),
            final(self).width() == old(self).width(),
            forall|a: int, b: int|
                0 <= a < old(self).height() && 0 <= b < old(self).width() ==> #[trigger] final(self).at(a, b) == (if a == i
                    && b == j {
                    v
                } else {
                    old(self).at(a, b)
                }),
    {
        if i < self.raw_rows() && j < self.raw_cols() {
            self.put(i, j, v);
            true
        } else {
            false
        }
    }

    /// A `rows` x `cols` grid with every cell equal to `value`, or `None`
    /// when a grid of that shape cannot be represented.
    pub fn filled(rows: usize, cols: usize, value: u64) -> (r: Option<Grid>)
        ensures
            r is Some <==> shape_fits(rows as nat, cols as nat),
            r is Some ==> {
                &&& r->Some_0.height() == rows
                &&& r->Some_0.width() == cols
                &&& forall|i: int, j: int| 0 <= i < rows && 0 <= j < cols ==> #[trigger] r->Some_0.at(i, j) == value
            },
    {
        if fits(rows, cols) {
            let g = Grid::raw_filled(rows, cols, value);
            proof {
                assert forall|i: int, j: int| 0 <= i < rows && 0 <= j < cols implies #[trigger] g.at(i, j) == value by {
                    assert(g@[i][j] == g.at(i, j));
                }
            }
            Some(g)
        } else {
            None
        }
    }

    /// Builds a grid from its rows. `None` when the rows differ in length or
    /// the shape cannot be represented.
    pub fn from_rows(rows: &Vec<Vec<u64>>) -> (r: Option<Grid>)
        ensures
            r is Some <==> rectangular(rows) && shape_fits(rows.len() as nat, row_length(rows)),
            r is Some ==> {
                &&& r->Some_0.width() == row_length(rows)
                &&& r->Some_0@ == rows_of(rows)
            },
    {
        let n = rows.len();
        let m: usize = if n == 0 { 0 } else { rows[0].len() };
        let mut k: usize = 0;
        while k < n
            invariant
                k <= n,
                n == rows.len(),
                m == row_length(rows),
                forall|i: int| 0 <= i < k ==> (#[trigger] rows[i]).len() == m,
            decreases n - k,
        {
            if rows[k].len() != m {
                return None;
            }
            k += 1;
        }
        if !fits(n, m) {
            return None;
        }
        let mut g = Grid::raw_filled(n, m, 0);
        let mut i: usize = 0;
        while i < n
            invariant
                i <= n,
                n == rows.len(),
                g.height() == n,
                g.width() == m,
                forall|a: int| 0 <= a < n ==> (#[trigger] rows[a]).len() == m,
                forall|a: int, b: int| 0 <= a < i && 0 <= b < m ==> #[trigger] g.at(a, b) == rows[a][b],
            decreases n - i,
        {
            let mut j: usize = 0;
            while j < m
                invariant
                    i < n,
                    j <= m,
                    n == rows.len(),
                    g.height() == n,
                    g.width() == m,
                    forall|a: int| 0 <= a < n ==> (#[trigger] rows[a]).len() == m,
                    forall|a: int, b: int| 0 <= a < i && 0 <= b < m ==> #[trigger] g.at(a, b) == rows[a][b],
                    forall|b: int| 0 <= b < j ==> #[trigger] g.at(i as int, b) == rows[i as int][b],
                decreases m - j,
            {
                g.put(i, j, rows[i][j]);
                j += 1;
            }
            i += 1;
        }
        proof {
            assert(g@ =~~= rows_of(rows));
        }
        Some(g)
    }

    /// Joins `b` to `a`: below it for `axis` 0, to its right for `axis` 1.
    /// Refused with `ShapeMismatch` when `axis` is neither, when the two
    /// differ in the other axis, or when the join would be too large.
    pub fn join(axis: usize, a: &Grid, b: &Grid) -> (r: Result<Grid, crate::error::Error>)
        ensures
            r is Ok <==> joinable(axis, a, b),
            r is Ok ==> r->Ok_0.height() == joined_height(axis, a, b) && r->Ok_0.width() == joined_width(axis, a, b)
                && r->Ok_0@ == joined(axis, a, b),
            r is Err ==> r->Err_0 == crate::error::Error::ShapeMismatch,
    {
        match Grid::raw_concatenate(axis, a, b) {
            Ok(g) => Ok(g),
            Err(_) => Err(crate::error::Error::ShapeMismatch),
        }
    }

    /// Copies the grid out, row by row.
    pub fn to_rows(&self) -> (r: Vec<Vec<u64>>)
        ensures
            rows_of(&r) == self@,
    {
        let n = self.raw_rows();
        let m = self.raw_cols();
        let mut out: Vec<Vec<u64>> = Vec::new();
        let mut i: usize = 0;
        while i < n
            invariant
                i <= n,
                n == self.height(),
                m == self.width(),
                out.len() == i,
                forall|a: int| 0 <= a < i ==> (#[trigger] out[a])@ == self@[a],
            decreases n - i,
        {
            let mut row: Vec<u64> = Vec::new();
            let mut j: usize = 0;
            while j < m
                invariant
                    i < n,
                    j <= m,
                    n == self.height(),
                    m == self.width(),
                    row.len() == j,
                    forall|b: int| 0 <= b < j ==> #[trigger] row[b] == self.at(i as int, b),
                decreases m - j,
            {
                row.push(self.raw_get(i, j));
                j += 1;
            }
            proof {
                assert(row@ =~= self@[i as int]);
            }
            out.push(row);
            i += 1;
        }
        proof {
            assert(rows_of(&out) =~= self@);
        }
        out
    }

    /// Column `j` from top to bottom.
    pub(crate) fn column_at(&self, j: usize) -> (v: Vec<u64>)
        requires
            j < self.width(),
        ensures
            v@ == self.column(j as int),
    {
        let n = self.raw_rows();
        let mut out: Vec<u64> = Vec::new();
        let mut i: usize = 0;
        while i < n
            invariant
                i <= n,
                n == self.height(),
                j < self.width(),
                out.len() == i,
                forall|a: int| 0 <= a < i ==> #[trigger] out[a] == self.at(a, j as int),
            decreases n - i,
        {
            out.push(self.raw_get(i, j));
            i += 1;
        }
        proof {
            assert(out@ =~= self.column(j as int));
        }
        out
    }

    /// Column `j` from top to bottom, or `None` when there is no such column.
    pub fn column_values(&self, j: usize) -> (r: Option<Vec<u64>>)
        ensures
            r is Some <==> j < self.width(),
            r is Some ==> r->Some_0@ == self.column(j as int),
    {
        if j < self.raw_cols() {
            Some(self.column_at(j))
        } else {
            None
        }
    }

    /// Replaces column `j` by `values` when the column exists and `values`
    /// has one sample per row; says whether it did. No other column changes.
    pub fn set_column(&mut self, j: usize, values: &Vec<u64>) -> (done: bool)
        ensures
            done == (j < old(self).width() && values.len() == old(self).height()),
            final(self).height() == old(self).height(),
            final(self).width() == old(self).width(),
            forall|a: int, b: int|
                0 <= a < old(self).height() && 0 <= b < old(self).width() ==> #[trigger] final(self).at(a, b) == (if done
                    && b == j {
                    values[a]
                } else {
                    old(self).at(a, b)
                }),
    {
        let n = self.raw_rows();
        if j >= self.raw_cols() || values.len() != n {
            return false;
        }
        let mut i: usize = 0;
        while i < n
            invariant
                i <= n,
                n == old(self).height(),
                values.len() == n,
                j < old(self).width(),
                self.height() == old(self).height(),
                self.width() == old(self).width(),
                forall|a: int, b: int|
                    0 <= a < old(self).height() && 0 <= b < old(self).width() ==> #[trigger] self.at(a, b) == (if a < i
                        && b == j {
                        values[a]
                    } else {
                        old(self).at(a, b)
                    }),
            decreases n - i,
        {
            self.put(i, j, values[i]);
            i += 1;
        }
        true
    }
}

/// Whether two grids can be joined along `axis` (0: `b` below `a`, 1: `b`
/// to the right of `a`).
pub open spec fn joinable(axis: usize, a: &Grid, b: &Grid) -> bool {
    &&& axis < 2
    &&& axis == 0 ==> a.width() == b.width()
    &&& axis == 1 ==> a.height() == b.height()
    &&& shape_fits(joined_height(axis, a, b), joined_width(axis, a, b))
}

/// Number of rows of the join of `a` and `b` along `axis`.
pub open spec fn joined_height(axis: usize, a: &Grid, b: &Grid) -> nat {
    if axis == 0 { a.height() + b.height() } else { a.height() }
}

/// Number of columns of the join of `a` and `b` along `axis`.
pub open spec fn joined_width(axis: usize, a: &Grid, b: &Grid) -> nat {
    if axis == 1 { a.width() + b.width() } else { a.width() }
}

/// The contents of the join of `a` and `b` along `axis`.
pub open spec fn joined(axis: usize, a: &Grid, b: &Grid) -> Seq<Seq<u64>> {
    matrix(
        joined_height(axis, a, b),
        joined_width(axis, a, b),
        |i: int, j: int|
            if axis == 0 {
                if i < a.height() { a.at(i, j) } else { b.at(i - a.height(), j) }
            } else {
                if j < a.width() { a.at(i, j) } else { b.at(i, j - a.width()) }
            },
    )
}

} // verus!
