use crate::common::Pair;
use crate::dataset::Dataset;
use crate::grid::Grid;
use crate::utils::{lawful_quotient, Arithmetic};
use vstd::prelude::*;

verus! {

/// Whether the mask flags the sample at 0-based row `i` of 0-based frame
/// `k`: some entry names frame `k + 1` and pixel `i + 1`.
pub open spec fn masked(mask: Seq<Pair<usize>>, i: int, k: int) -> bool {
    exists|p: int| 0 <= p < mask.len() && (#[trigger] mask[p]).a == k + 1 && mask[p].b == i + 1
}

/// Whether the mask flags row `i` in any of the first `n` frames.
pub open spec fn row_is_masked(mask: Seq<Pair<usize>>, i: int, n: nat) -> bool {
    exists|k: int| 0 <= k < n && #[trigger] masked(mask, i, k)
}

/// The intensities at row `i` of those of the first `n` frames that the mask
/// does not flag there, in frame order.
pub open spec fn reference_values(g: &Grid, mask: Seq<Pair<usize>>, i: int, n: nat) -> Seq<u64>
    decreases n,
{
    if n == 0 {
        Seq::empty()
    } else {
        let rest = reference_values(g, mask, i, (n - 1) as nat);
        if masked(mask, i, n - 1) {
            rest
        } else {
            rest.push(g.at(i, 2 * (n - 1) + 1))
        }
    }
}

/// Whether row `i` has flagged samples but no sample to repair them from.
pub open spec fn starved(g: &Grid, mask: Seq<Pair<usize>>, i: int, n: nat) -> bool {
    row_is_masked(mask, i, n) && reference_values(g, mask, i, n).len() == 0
}

/// The 1-based numbers of the starved rows among the first `h`, ascending.
pub open spec fn starved_pixels(g: &Grid, mask: Seq<Pair<usize>>, h: nat, n: nat) -> Seq<usize>
    decreases h,
{
    if h == 0 {
        Seq::empty()
    } else {
        let rest = starved_pixels(g, mask, (h - 1) as nat, n);
        if starved(g, mask, h - 1, n) {
            rest.push(h as usize)
        } else {
            rest
        }
    }
}

/// Whether row `i` of `after` is row `i` of `before` with each flagged
/// intensity replaced by `m`.
pub open spec fn row_filled(before: &Grid, after: &Grid, mask: Seq<Pair<usize>>, i: int, m: u64) -> bool {
    forall|j: int|
        0 <= j < before.width() ==> #[trigger] after.at(i, j) == (if j % 2 == 1 && masked(mask, i, j / 2) {
            m
        } else {
            before.at(i, j)
        })
}

/// Whether row `i` of `after` is row `i` of `before`.
pub open spec fn row_kept(before: &Grid, after: &Grid, i: int) -> bool {
    forall|j: int| 0 <= j < before.width() ==> #[trigger] after.at(i, j) == before.at(i, j)
}

/// What masking does to row `i`: a row without flagged samples, and a row
/// without samples to repair from, stay as they are; in any other row each
/// flagged intensity becomes what `mean` made of the intensities that are
/// not flagged.
pub open spec fn row_repaired<F: Fn(&Vec<u64>) -> u64>(
    before: &Grid,
    after: &Grid,
    mask: Seq<Pair<usize>>,
    i: int,
    mean: F,
) -> bool {
    let n = before.width() / 2;
    let values = reference_values(before, mask, i, n);
    if !row_is_masked(mask, i, n) || values.len() == 0 {
        row_kept(before, after, i)
    } else {
        exists|v: Vec<u64>, m: u64| v@ == values && call_ensures(mean, (&v,), m) && row_filled(before, after, mask, i, m)
    }
}

/// Whether a mask entry names a sample of a dataset with `rows` rows and
/// `frames` frames.
pub open spec fn names_sample(entry: Pair<usize>, rows: nat, frames: nat) -> bool {
    1 <= entry.a <= frames && 1 <= entry.b <= rows
}

/// Those of the first `n` entries of the mask that name no sample, in the
/// order of the mask.
pub open spec fn stray_entries(mask: Seq<Pair<usize>>, n: nat, rows: nat, frames: nat) -> Seq<Pair<usize>>
    decreases n,
{
    if n == 0 {
        Seq::empty()
    } else {
        let rest = stray_entries(mask, (n - 1) as nat, rows, frames);
        if names_sample(mask[n - 1], rows, frames) {
            rest
        } else {
            rest.push(mask[n - 1])
        }
    }
}

/// What masking does to row `i`: a row without flagged samples, and a row
/// without samples to repair from, stay as they are; in any other row each
/// flagged intensity becomes the mean of the intensities that are not
/// flagged.
pub open spec fn row_masked<
    I: Fn(u64, u64, u64, u64, u64) -> u64,
    A: Fn(u64, u64, u64, u64) -> u64,
    P: Fn(u64, u64) -> u64,
    Q: Fn(u64) -> u64,
    V: Fn(u64, usize) -> u64,
>(before: &Grid, after: &Grid, mask: Seq<Pair<usize>>, i: int, ops: &Arithmetic<I, A, P, Q>, over: V) -> bool {
    let n = before.width() / 2;
    let values = reference_values(before, mask, i, n);
    if !row_is_masked(mask, i, n) || values.len() == 0 {
        row_kept(before, after, i)
    } else {
        row_filled(before, after, mask, i, ops.mean_value(values, over))
    }
}

/// Replaces flagged samples by the mean of their row.
pub struct MaskTransform {
    /// The flagged samples as (frame, pixel), both counted from 1.
    pub mask: Vec<Pair<usize>>,
}

impl MaskTransform {
    /// Whether the mask flags pixel `pixel_no` of frame `frame_no`, both
    /// counted from 1.
    pub fn flags(&self, frame_no: usize, pixel_no: usize) -> (b: bool)
        ensures
            b == masked(self.mask@, pixel_no - 1, frame_no - 1),
    {
        let mut p: usize = 0;
        while p < self.mask.len()
            invariant
                p <= self.mask.len(),
                forall|q: int| 0 <= q < p ==> !((#[trigger] self.mask@[q]).a == frame_no && self.mask@[q].b == pixel_no),
            decreases self.mask.len() - p,
        {
            if self.mask[p].a == frame_no && self.mask[p].b == pixel_no {
                return true;
            }
            p += 1;
        }
        false
    }

    /// The entries of the mask that name no sample of `dataset` and
    /// therefore have no effect on it, in the order of the mask.
    pub fn ignored(&self, dataset: &Dataset) -> (r: Vec<Pair<usize>>)
        ensures
            r@ == stray_entries(self.mask@, self.mask.len() as nat, dataset.pixels(), dataset.frames()),
    {
        let rows = dataset.rows();
        let frames = dataset.frame_count();
        let mut out: Vec<Pair<usize>> = Vec::new();
        let mut p: usize = 0;
        while p < self.mask.len()
            invariant
                p <= self.mask.len(),
                rows == dataset.pixels(),
                frames == dataset.frames(),
                out@ == stray_entries(self.mask@, p as nat, rows as nat, frames as nat),
            decreases self.mask.len() - p,
        {
            let entry = self.mask[p];
            if !(1 <= entry.a && entry.a <= frames && 1 <= entry.b && entry.b <= rows) {
                out.push(entry);
            }
            p += 1;
        }
        out
    }

    /// Replaces each flagged intensity by `mean` of the intensities that the
    /// mask does not flag in the same row. Entries of the mask that name no
    /// sample of the dataset have no effect. A row in which every frame is
    /// flagged is left alone; the 1-based numbers of these rows are
    /// returned, ascending.
    ///
    /// `mean` is called once for each row that has flagged and unflagged
    /// intensities, with the unflagged ones in frame order.
    pub fn transform<F: Fn(&Vec<u64>) -> u64>(&self, dataset: &mut Dataset, mean: F) -> (skipped: Vec<usize>)
        requires
            forall|v: &Vec<u64>| v.len() > 0 ==> call_requires(mean, (v,)),
        ensures
            final(dataset).log() == old(dataset).log(),
            final(dataset).comments() == old(dataset).comments(),
            final(dataset).grid().height() == old(dataset).grid().height(),
            final(dataset).grid().width() == old(dataset).grid().width(),
            forall|i: int|
                0 <= i < old(dataset).grid().height() ==> #[trigger] row_repaired(
                    &old(dataset).grid(),
                    &final(dataset).grid(),
                    self.mask@,
                    i,
                    mean,
                ),
            skipped@ == starved_pixels(&old(dataset).grid(), self.mask@, old(dataset).pixels(), old(dataset).frames()),
    {
        let h = dataset.rows();
        let n = dataset.frame_count();
        let ghost before = dataset.grid();
        let ghost mask = self.mask@;
        let mut skipped: Vec<usize> = Vec::new();
        let mut i: usize = 0;
        while i < h
            invariant
                i <= h,
                h == before.height(),
                n == before.width() / 2,
                2 * n <= usize::MAX,
                mask == self.mask@,
                before == old(dataset).grid(),
                dataset.log() == old(dataset).log(),
                dataset.comments() == old(dataset).comments(),
                dataset.grid().height() == before.height(),
                dataset.grid().width() == before.width(),
                forall|v: &Vec<u64>| v.len() > 0 ==> call_requires(mean, (v,)),
                forall|a: int| 0 <= a < i ==> #[trigger] row_repaired(&before, &dataset.grid(), mask, a, mean),
                forall|a: int| i <= a < h ==> #[trigger] row_kept(&before, &dataset.grid(), a),
                skipped@ == starved_pixels(&before, mask, i as nat, n as nat),
            decreases h - i,
        {
            let ghost entry = dataset.grid();
            let mut values: Vec<u64> = Vec::new();
            let mut any = false;
            let mut k: usize = 0;
            while k < n
                invariant
                    k <= n,
                    i < h,
                    h == before.height(),
                    n == before.width() / 2,
                    2 * n <= usize::MAX,
                    mask == self.mask@,
                    dataset.grid() == entry,
                    entry.height() == before.height(),
                    entry.width() == before.width(),
                    row_kept(&before, &entry, i as int),
                    values@ == reference_values(&before, mask, i as int, k as nat),
                    any == row_is_masked(mask, i as int, k as nat),
                decreases n - k,
            {
                if self.flags(k + 1, i + 1) {
                    any = true;
                } else {
                    let v = dataset.data().raw_get(i, 2 * k + 1);
                    values.push(v);
                }
                k += 1;
            }
            if any && values.len() == 0 {
                skipped.push(i + 1);
            }
            if any && values.len() > 0 {
                let m = mean(&values);
                let mut k: usize = 0;
                while k < n
                    invariant
                        k <= n,
                        i < h,
                        h == before.height(),
                        n == before.width() / 2,
                        2 * n <= usize::MAX,
                        mask == self.mask@,
                        dataset.log() == old(dataset).log(),
                        dataset.comments() == old(dataset).comments(),
                        dataset.grid().height() == before.height(),
                        dataset.grid().width() == before.width(),
                        forall|a: int, j: int|
                            0 <= a < h && 0 <= j < before.width() ==> #[trigger] dataset.grid().at(a, j) == (if a == i && j
                                % 2 == 1 && j / 2 < k && masked(mask, i as int, j / 2) {
                                m
                            } else {
                                entry.at(a, j)
                            }),
                    decreases n - k,
                {
                    if self.flags(k + 1, i + 1) {
                        dataset.put(i, 2 * k + 1, m);
                    }
                    k += 1;
                }
                proof {
                    assert(row_filled(&before, &dataset.grid(), mask, i as int, m));
                    assert(row_repaired(&before, &dataset.grid(), mask, i as int, mean));
                }
            }
            proof {
                let now = dataset.grid();
                assert forall|a: int| 0 <= a < i implies #[trigger] row_repaired(&before, &now, mask, a, mean) by {
                    assert(row_repaired(&before, &entry, mask, a, mean));
                    let values = reference_values(&before, mask, a, n as nat);
                    if !row_is_masked(mask, a, n as nat) || values.len() == 0 {
                        assert(row_kept(&before, &entry, a));
                        assert(row_kept(&before, &now, a));
                    } else {
                        let (v, m) = choose|v: Vec<u64>, m: u64|
                            v@ == values && call_ensures(mean, (&v,), m) && row_filled(&before, &entry, mask, a, m);
                        assert(row_filled(&before, &now, mask, a, m));
                    }
                }
                assert forall|a: int| i < a < h implies #[trigger] row_kept(&before, &now, a) by {
                    assert(row_kept(&before, &entry, a));
                }
                assert(row_repaired(&before, &now, mask, i as int, mean));
            }
            i += 1;
        }
        skipped
    }

    /// Replaces each flagged intensity by the mean of the intensities that
    /// the mask does not flag in the same row, see
    /// [`Arithmetic::mean_value`]. Entries of the mask that name no sample
    /// of the dataset have no effect. A row in which every frame is flagged
    /// is left alone; the 1-based numbers of these rows are returned,
    /// ascending.
    pub fn mask_pixels<
        I: Fn(u64, u64, u64, u64, u64) -> u64,
        A: Fn(u64, u64, u64, u64) -> u64,
        P: Fn(u64, u64) -> u64,
        Q: Fn(u64) -> u64,
        V: Fn(u64, usize) -> u64,
    >(&self, dataset: &mut Dataset, ops: &Arithmetic<I, A, P, Q>, over: &V) -> (skipped: Vec<usize>)
        requires
            ops.lawful(),
            lawful_quotient(*over),
        ensures
            final(dataset).log() == old(dataset).log(),
            final(dataset).comments() == old(dataset).comments(),
            final(dataset).grid().height() == old(dataset).grid().height(),
            final(dataset).grid().width() == old(dataset).grid().width(),
            forall|i: int|
                0 <= i < old(dataset).grid().height() ==> #[trigger] row_masked(
                    &old(dataset).grid(),
                    &final(dataset).grid(),
                    self.mask@,
                    i,
                    ops,
                    *over,
                ),
            skipped@ == starved_pixels(&old(dataset).grid(), self.mask@, old(dataset).pixels(), old(dataset).frames()),
    {
        let ghost before = dataset.grid();
        let mean = |values: &Vec<u64>| -> (m: u64)
            ensures
                m == ops.mean_value(values@, *over),
            { ops.mean(values, over) };
        let skipped = self.transform(dataset, mean);
        proof {
            let after = dataset.grid();
            assert forall|i: int| 0 <= i < before.height() implies #[trigger] row_masked(
                &before,
                &after,
                self.mask@,
                i,
                ops,
                *over,
            ) by {
                assert(row_repaired(&before, &after, self.mask@, i, mean));
            }
        }
        skipped
    }
}

} // verus!
