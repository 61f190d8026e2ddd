use crate::dataset::Dataset;
use crate::error::Error;
use crate::grid::{shape_fits, Grid};
use crate::utils::{lawful_quotient, Arithmetic};
use vstd::prelude::*;

verus! {

/// The intensities in row `i` of the first `n` frames, in frame order.
pub open spec fn row_intensities(g: &Grid, i: int, n: nat) -> Seq<u64> {
    Seq::new(n, |k: int| g.at(i, 2 * k + 1))
}

/// Whether the intensity in row `i` of the single frame of `after` is what
/// `mean` made of the intensities in row `i` of all frames of `before`.
pub open spec fn row_averaged<F: Fn(&Vec<u64>) -> u64>(before: &Grid, after: &Grid, i: int, mean: F) -> bool {
    exists|v: Vec<u64>| v@ == row_intensities(before, i, before.width() / 2) && call_ensures(mean, (&v,), after.at(i, 1))
}

/// Replaces all frames by one frame of averaged intensities.
pub struct AverageTransform {}

impl AverageTransform {
    /// Puts a single frame in place of the matrix: the x-axis of the first
    /// frame, and as intensity of each row what `mean` makes of the
    /// intensities of all frames in that row, which it is given in frame
    /// order. A dataset without frames is refused with `InsufficientData`
    /// and stays as it was.
    pub fn transform<F: Fn(&Vec<u64>) -> u64>(&self, dataset: &mut Dataset, mean: F) -> (r: Result<(), Error>)
        requires
            old(dataset).wf(),
            forall|v: &Vec<u64>| v.len() > 0 ==> call_requires(mean, (v,)),
        ensures
            final(dataset).wf(),
            final(dataset).log() == old(dataset).log(),
            final(dataset).comments() == old(dataset).comments(),
            r is Ok <==> old(dataset).frames() > 0,
            r is Ok ==> {
                &&& final(dataset).grid().height() == old(dataset).pixels()
                &&& final(dataset).grid().width() == 2
                &&& final(dataset).xs(0) == old(dataset).xs(0)
                &&& forall|i: int|
                    0 <= i < old(dataset).pixels() ==> #[trigger] row_averaged(
                        &old(dataset).grid(),
                        &final(dataset).grid(),
                        i,
                        mean,
                    )
            },
            r is Err ==> final(dataset).grid() == old(dataset).grid() && r->Err_0 == Error::InsufficientData,
    {
        let n = dataset.frame_count();
        if n == 0 {
            return Err(Error::InsufficientData);
        }
        let h = dataset.rows();
        let ghost before = dataset.grid();
        let mut picks: Vec<usize> = Vec::new();
        picks.push(0);
        picks.push(1);
        proof {
            let w = before.width();
            assert(shape_fits(h as nat, 2)) by (nonlinear_arith)
                requires
                    shape_fits(h as nat, w),
                    w >= 2,
            ;
        }
        let mut g = dataset.data().raw_select_columns(&picks);
        proof {
            assert forall|i: int| 0 <= i < h implies g.at(i, 0) == before.at(i, 0) by {
                assert(g@[i][0] == g.at(i, 0));
            }
        }
        let mut i: usize = 0;
        while i < h
            invariant
                i <= h,
                n > 0,
                2 * n <= usize::MAX,
                before == dataset.grid(),
                h == before.height(),
                n == before.width() / 2,
                before.width() == 2 * n,
                g.height() == h,
                g.width() == 2,
                forall|v: &Vec<u64>| v.len() > 0 ==> call_requires(mean, (v,)),
                forall|a: int| 0 <= a < h ==> g.at(a, 0) == before.at(a, 0),
                forall|a: int| 0 <= a < i ==> #[trigger] row_averaged(&before, &g, a, mean),
            decreases h - i,
        {
            let mut values: Vec<u64> = Vec::new();
            let mut k: usize = 0;
            while k < n
                invariant
                    k <= n,
                    i < h,
                    2 * n <= usize::MAX,
                    before == dataset.grid(),
                    h == before.height(),
                    before.width() == 2 * n,
                    values.len() == k,
                    forall|j: int| 0 <= j < k ==> #[trigger] values[j] == before.at(i as int, 2 * j + 1),
                decreases n - k,
            {
                values.push(dataset.data().raw_get(i, 2 * k + 1));
                k += 1;
            }
            proof {
                assert(values@ =~= row_intensities(&before, i as int, n as nat));
            }
            let m = mean(&values);
            let ghost entry = g;
            g.put(i, 1, m);
            proof {
                assert(row_averaged(&before, &g, i as int, mean));
                assert forall|a: int| 0 <= a < i implies #[trigger] row_averaged(&before, &g, a, mean) by {
                    assert(row_averaged(&before, &entry, a, mean));
                    let v = choose|v: Vec<u64>|
                        v@ == row_intensities(&before, a, before.width() / 2) && call_ensures(mean, (&v,), entry.at(a, 1));
                    assert(g.at(a, 1) == entry.at(a, 1));
                }
            }
            i += 1;
        }
        proof {
            assert(g.column(0) =~= before.column(0));
        }
        dataset.replace_grid(g);
        Ok(())
    }

    /// Puts a single frame in place of the matrix: the x-axis of the first
    /// frame, and as intensity of each row the mean of the intensities of
    /// all frames in that row, see [`Arithmetic::mean_value`]. A dataset
    /// without frames is refused with `InsufficientData` and stays as it
    /// was.
    pub fn average<
        I: Fn(u64, u64, u64, u64, u64) -> u64,
        A: Fn(u64, u64, u64, u64) -> u64,
        P: Fn(u64, u64) -> u64,
        Q: Fn(u64) -> u64,
        V: Fn(u64, usize) -> u64,
    >(&self, dataset: &mut Dataset, ops: &Arithmetic<I, A, P, Q>, over: &V) -> (r: Result<(), Error>)
        requires
            old(dataset).wf(),
            ops.lawful(),
            lawful_quotient(*over),
        ensures
            final(dataset).wf(),
            final(dataset).log() == old(dataset).log(),
            final(dataset).comments() == old(dataset).comments(),
            r is Ok <==> old(dataset).frames() > 0,
            r is Ok ==> {
                &&& final(dataset).grid().height() == old(dataset).pixels()
                &&& final(dataset).grid().width() == 2
                &&& final(dataset).xs(0) == old(dataset).xs(0)
                &&& forall|i: int|
                    0 <= i < old(dataset).pixels() ==> #[trigger] final(dataset).grid().at(i, 1) == ops.mean_value(
                        row_intensities(&old(dataset).grid(), i, old(dataset).frames()),
                        *over,
                    )
            },
            r is Err ==> final(dataset).grid() == old(dataset).grid() && r->Err_0 == Error::InsufficientData,
    {
        let ghost before = dataset.grid();
        let mean = |values: &Vec<u64>| -> (m: u64)
            ensures
                m == ops.mean_value(values@, *over),
            { ops.mean(values, over) };
        let r = self.transform(dataset, mean);
        proof {
            if r is Ok {
                let after = dataset.grid();
                assert forall|i: int| 0 <= i < before.height() implies #[trigger] after.at(i, 1) == ops.mean_value(
                    row_intensities(&before, i, before.width() / 2),
                    *over,
                ) by {
                    assert(row_averaged(&before, &after, i, mean));
                }
            }
        }
        r
    }
}

} // verus!
