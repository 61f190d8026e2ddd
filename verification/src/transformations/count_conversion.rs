use crate::dataset::Dataset;
use crate::grid::Grid;
use vstd::prelude::*;

verus! {

/// The two neighbouring x-values whose distance is the step of frame `k` at
/// row `i`: the x-value of the row and the one below it; in the last row,
/// where nothing is below, the two of the row above. A frame of fewer than
/// two rows has no step.
pub open spec fn step_at(g: &Grid, i: int, k: int) -> Option<(u64, u64)> {
    let h = g.height() as int;
    if h < 2 {
        None
    } else if i < h - 1 {
        Some((g.at(i, 2 * k), g.at(i + 1, 2 * k)))
    } else {
        Some((g.at(h - 2, 2 * k), g.at(h - 1, 2 * k)))
    }
}

/// Whether `after` is `before` with each intensity replaced by what
/// `convert` made of the step at its row and of the intensity itself, and
/// with every x-value untouched.
pub open spec fn counts_converted<C: Fn(Option<(u64, u64)>, u64) -> u64>(before: &Grid, after: &Grid, convert: C) -> bool {
    &&& after.height() == before.height()
    &&& after.width() == before.width()
    &&& forall|i: int, j: int|
        0 <= i < before.height() && 0 <= j < before.width() ==> if j % 2 == 1 {
            call_ensures(convert, (step_at(before, i, j / 2), before.at(i, j)), #[trigger] after.at(i, j))
        } else {
            after.at(i, j) == before.at(i, j)
        }
}

/// Converts every intensity: it becomes what `convert` makes of the step
/// of the x-axis at its row, see [`step_at`], and of the intensity itself.
/// X-values and texts stay.
pub fn convert_counts<C: Fn(Option<(u64, u64)>, u64) -> u64>(dataset: &mut Dataset, convert: &C)
    requires
        forall|step: Option<(u64, u64)>, y: u64| call_requires(*convert, (step, y)),
    ensures
        final(dataset).log() == old(dataset).log(),
        final(dataset).comments() == old(dataset).comments(),
        counts_converted(&old(dataset).grid(), &final(dataset).grid(), *convert),
{
    let h = dataset.rows();
    let n = dataset.frame_count();
    let ghost before = dataset.grid();
    let mut k: usize = 0;
    while k < n
        invariant
            k <= n,
            n == before.width() / 2,
            2 * n <= usize::MAX,
            h == before.height(),
            before == old(dataset).grid(),
            dataset.log() == old(dataset).log(),
            dataset.comments() == old(dataset).comments(),
            dataset.grid().height() == before.height(),
            dataset.grid().width() == before.width(),
            forall|step: Option<(u64, u64)>, y: u64| call_requires(*convert, (step, y)),
            forall|i: int, j: int|
                0 <= i < before.height() && 0 <= j < before.width() ==> if j % 2 == 1 && j / 2 < k {
                    call_ensures(*convert, (step_at(&before, i, j / 2), before.at(i, j)), #[trigger] dataset.grid().at(i, j))
                } else {
                    dataset.grid().at(i, j) == before.at(i, j)
                },
        decreases n - k,
    {
        let mut i: usize = 0;
        while i < h
            invariant
                i <= h,
                k < n,
                n == before.width() / 2,
                2 * n <= usize::MAX,
                h == before.height(),
                before == old(dataset).grid(),
                dataset.log() == old(dataset).log(),
                dataset.comments() == old(dataset).comments(),
                dataset.grid().height() == before.height(),
                dataset.grid().width() == before.width(),
                forall|step: Option<(u64, u64)>, y: u64| call_requires(*convert, (step, y)),
                forall|a: int, j: int|
                    0 <= a < before.height() && 0 <= j < before.width() ==> if j % 2 == 1 && (j / 2 < k || (j / 2 == k && a
                        < i)) {
                        call_ensures(
                            *convert,
                            (step_at(&before, a, j / 2), before.at(a, j)),
                            #[trigger] dataset.grid().at(a, j),
                        )
                    } else {
                        dataset.grid().at(a, j) == before.at(a, j)
                    },
            decreases h - i,
        {
            let step = if h < 2 {
                None
            } else if i < h - 1 {
                Some((dataset.data().raw_get(i, 2 * k), dataset.data().raw_get(i + 1, 2 * k)))
            } else {
                Some((dataset.data().raw_get(h - 2, 2 * k), dataset.data().raw_get(h - 1, 2 * k)))
            };
            let y = dataset.data().raw_get(i, 2 * k + 1);
            let v = convert(step, y);
            dataset.put(i, 2 * k + 1, v);
            i += 1;
        }
        k += 1;
    }
}

} // verus!
