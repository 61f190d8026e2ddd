use crate::dataset::Dataset;
use crate::error::Error;
use crate::grid::{fits, matrix, shape_fits, Grid};
use vstd::arithmetic::div_mod::{lemma_fundamental_div_mod, lemma_fundamental_div_mod_converse};
use vstd::prelude::*;

verus! {

/// Number of (x, y) pairs in a matrix of paired columns.
pub open spec fn pair_count(g: &Grid) -> nat {
    g.height() * (g.width() / 2)
}

/// The (x, y) pairs of a matrix in raster order: down the rows of the first
/// frame, then down the second frame, and so on.
pub open spec fn raster(g: &Grid) -> Seq<(u64, u64)> {
    Seq::new(
        pair_count(g),
        |p: int| (g.at(p % (g.height() as int), 2 * (p / (g.height() as int))), g.at(p % (g.height() as int), 2 * (p / (g.height() as int)) + 1)),
    )
}

/// Whether a matrix of paired columns can be re-flowed into `rows` rows:
/// `rows` is not zero and divides the number of pairs, and the new shape
/// is one that can be held.
pub open spec fn can_reshape(g: &Grid, rows: usize) -> bool {
    &&& rows > 0
    &&& pair_count(g) % (rows as nat) == 0
    &&& shape_fits(rows as nat, 2 * (pair_count(g) / (rows as nat)))
}

/// The cell at row `i`, column `j` of the matrix that re-flows `g` into
/// `rows` rows: pair number `(j / 2) * rows + i` of `g` in raster order.
pub open spec fn reshaped_cell(g: &Grid, rows: usize, i: int, j: int) -> u64 {
    let p = (j / 2) * rows + i;
    g.at(p % (g.height() as int), 2 * (p / (g.height() as int)) + j % 2)
}

/// The matrix that re-flows `g` into `rows` rows.
pub open spec fn reshaped(g: &Grid, rows: usize) -> Seq<Seq<u64>> {
    matrix(rows as nat, 2 * (pair_count(g) / (rows as nat)), |i: int, j: int| reshaped_cell(g, rows, i, j))
}

/// Whether `out` is `g` re-flowed into `rows` rows.
pub open spec fn is_reshaped(out: &Grid, g: &Grid, rows: usize) -> bool {
    &&& out.height() == rows
    &&& out.width() == 2 * (pair_count(g) / (rows as nat))
    &&& out@ == reshaped(g, rows)
}

/// Re-flowing a matrix into a row count that divides its number of pairs
/// keeps every (x, y) pair, and keeps the pairs in raster order.
pub proof fn lemma_reshape_keeps_raster_order(g: &Grid, rows: usize, out: &Grid)
    requires
        can_reshape(g, rows),
        is_reshaped(out, g, rows),
    ensures
        raster(out) == raster(g),
{
    let h = g.height() as int;
    let total = pair_count(g) as int;
    let frames = total / (rows as int);
    lemma_fundamental_div_mod(total, rows as int);
    assert(out.width() / 2 == frames);
    assert(pair_count(out) == total) by (nonlinear_arith)
        requires
            pair_count(out) == rows * frames,
            total == rows * frames + 0,
    ;
    assert forall|p: int| 0 <= p < total implies #[trigger] raster(out)[p] == raster(g)[p] by {
        let i = p % (rows as int);
        let f = p / (rows as int);
        lemma_fundamental_div_mod(p, rows as int);
        assert(0 <= f < frames) by (nonlinear_arith)
            requires
                p == rows * f + i,
                0 <= i < rows,
                0 <= p < rows * frames,
        ;
        assert((2 * f) / 2 == f && (2 * f) % 2 == 0);
        assert((2 * f + 1) / 2 == f && (2 * f + 1) % 2 == 1);
        assert(f * rows + i == p) by (nonlinear_arith)
            requires
                p == rows * f + i,
        ;
        assert(out@[i][2 * f] == out.at(i, 2 * f));
        assert(out@[i][2 * f + 1] == out.at(i, 2 * f + 1));
        assert(out.at(i, 2 * f) == reshaped_cell(g, rows, i, 2 * f));
        assert(out.at(i, 2 * f + 1) == reshaped_cell(g, rows, i, 2 * f + 1));
    }
    assert(raster(out) =~= raster(g));
}

/// Re-flowing a matrix of paired columns into the row count it already has
/// changes nothing.
pub proof fn lemma_reshape_same_rows_is_identity(g: &Grid, out: &Grid)
    requires
        g.width() % 2 == 0,
        g.height() <= usize::MAX,
        can_reshape(g, g.height() as usize),
        is_reshaped(out, g, g.height() as usize),
    ensures
        out.height() == g.height(),
        out.width() == g.width(),
        out@ == g@,
{
    let h = g.height() as int;
    let n = (g.width() / 2) as int;
    assert((h * n) / h == n) by (nonlinear_arith)
        requires
            h > 0,
            n >= 0,
    ;
    assert forall|i: int, j: int| 0 <= i < h && 0 <= j < 2 * n implies reshaped_cell(g, h as usize, i, j) == g.at(i, j) by {
        let p = (j / 2) * h + i;
        lemma_fundamental_div_mod_converse(p, h, j / 2, i);
    }
    assert(out@ =~~= g@);
}

/// Re-flows the frames into a new number of rows, e.g. to split a dataset
/// in which several scans were stored one below the other.
pub struct ReshapeTransform {
    pub rows: usize,
}

impl ReshapeTransform {
    /// Re-flows the matrix into `self.rows` rows, keeping the raster order of
    /// its (x, y) pairs. Refused with `ShapeMismatch`, and nothing changes,
    /// when the new row count is zero or does not divide the number of
    /// pairs, or when it is too large for a matrix without any pair.
    pub fn transform(&self, dataset: &mut Dataset) -> (r: Result<(), Error>)
        requires
            old(dataset).wf(),
        ensures
            final(dataset).wf(),
            final(dataset).log() == old(dataset).log(),
            final(dataset).comments() == old(dataset).comments(),
            r is Ok <==> can_reshape(&old(dataset).grid(), self.rows),
            r is Ok ==> is_reshaped(&final(dataset).grid(), &old(dataset).grid(), self.rows),
            r is Err ==> r->Err_0 == Error::ShapeMismatch && final(dataset).grid() == old(dataset).grid(),
    {
        let h = dataset.rows();
        let n = dataset.frame_count();
        let rows = self.rows;
        let ghost g = dataset.grid();
        proof {
            assert(h * n <= h * (2 * n)) by (nonlinear_arith);
            if h > 0 && n > 0 {
                assert(h * (2 * n) <= isize::MAX);
            } else {
                assert(h * n == 0) by (nonlinear_arith)
                    requires
                        h == 0 || n == 0,
                ;
            }
        }
        let pairs = h * n;
        if rows == 0 || pairs % rows != 0 {
            return Err(Error::ShapeMismatch);
        }
        let frames = pairs / rows;
        proof {
            lemma_fundamental_div_mod(pairs as int, rows as int);
            assert(rows * frames == pairs);
        }
        if pairs == 0 {
            if !fits(rows, 0) {
                return Err(Error::ShapeMismatch);
            }
            let out = Grid::raw_filled(rows, 0, 0);
            proof {
                assert(out@ =~~= reshaped(&g, rows));
            }
            dataset.replace_grid(out);
            return Ok(());
        }
        proof {
            assert(frames > 0) by (nonlinear_arith)
                requires
                    rows * frames == pairs,
                    pairs > 0,
                    rows > 0,
            ;
            assert(rows * (2 * frames) == h * (2 * n)) by (nonlinear_arith)
                requires
                    rows * frames == h * n,
            ;
        }
        let mut out = Grid::raw_filled(rows, 2 * frames, 0);
        let data = dataset.data();
        let mut a: usize = 0;
        let mut b: usize = 0;
        let mut f: usize = 0;
        while f < frames
            invariant
                f <= frames,
                *data == g,
                g.height() == h,
                g.width() == 2 * n,
                h > 0,
                rows > 0,
                rows * frames == h * n,
                2 * frames <= usize::MAX,
                2 * n <= usize::MAX,
                out.height() == rows,
                out.width() == 2 * frames,
                a < h,
                b % 2 == 0,
                f * rows == (b / 2) * h + a,
                forall|i: int, j: int|
                    0 <= i < rows && 0 <= j < 2 * f ==> #[trigger] out.at(i, j) == reshaped_cell(&g, rows, i, j),
            decreases frames - f,
        {
            let mut i: usize = 0;
            while i < rows
                invariant
                    f < frames,
                    i <= rows,
                    *data == g,
                    g.height() == h,
                    g.width() == 2 * n,
                    h > 0,
                    rows > 0,
                    rows * frames == h * n,
                    2 * frames <= usize::MAX,
                    2 * n <= usize::MAX,
                2 * n <= usize::MAX,
                    out.height() == rows,
                    out.width() == 2 * frames,
                    a < h,
                    b % 2 == 0,
                    f * rows + i == (b / 2) * h + a,
                    forall|x: int, j: int|
                        0 <= x < rows && 0 <= j < 2 * f ==> #[trigger] out.at(x, j) == reshaped_cell(&g, rows, x, j),
                    forall|x: int, j: int|
                        0 <= x < i && 2 * f <= j < 2 * f + 2 ==> #[trigger] out.at(x, j) == reshaped_cell(&g, rows, x, j),
                decreases rows - i,
            {
                proof {
                    let p = f * rows + i;
                    let q = (b / 2) as int;
                    assert(p < rows * frames) by (nonlinear_arith)
                        requires
                            p == f * rows + i,
                            i < rows,
                            f < frames,
                    ;
                    assert(q < n) by (nonlinear_arith)
                        requires
                            q * h + a < h * n,
                            a >= 0,
                            h > 0,
                    ;
                    lemma_fundamental_div_mod_converse(p as int, h as int, q, a as int);
                    assert((2 * f) / 2 == f && (2 * f) % 2 == 0);
                    assert((2 * f + 1) / 2 == f && (2 * f + 1) % 2 == 1);
                    assert(reshaped_cell(&g, rows, i as int, 2 * f) == g.at(a as int, b as int));
                    assert(reshaped_cell(&g, rows, i as int, 2 * f + 1) == g.at(a as int, b + 1));
                }
                let x = data.raw_get(a, b);
                let y = data.raw_get(a, b + 1);
                out.put(i, 2 * f, x);
                out.put(i, 2 * f + 1, y);
                a += 1;
                if a == h {
                    proof {
                        assert(b / 2 < n);
                        assert((b / 2 + 1) * h == (b / 2) * h + h) by (nonlinear_arith);
                    }
                    b += 2;
                    a = 0;
                }
                i += 1;
            }
            proof {
                assert((f + 1) * rows == f * rows + rows) by (nonlinear_arith);
            }
            f += 1;
        }
        proof {
            assert(out@ =~~= reshaped(&g, rows));
        }
        dataset.replace_grid(out);
        Ok(())
    }
}

} // verus!
