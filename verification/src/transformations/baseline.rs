use crate::dataset::Dataset;
use crate::error::Error;
use crate::grid::shape_fits;
use vstd::prelude::*;

verus! {

/// Adds the baseline as a frame behind the last one: its x-axis is that of
/// the first frame, and its intensity in each row is what `sample` makes
/// of the x-value there. All other frames and the texts stay.
///
/// A dataset without frames is refused with `InsufficientData`, one that
/// cannot hold a further frame with `ShapeMismatch`; it then stays as it
/// was.
pub fn store_baseline<F: Fn(u64) -> u64>(dataset: &mut Dataset, sample: &F) -> (r: Result<(), Error>)
    requires
        old(dataset).wf(),
        forall|x: u64| call_requires(*sample, (x,)),
    ensures
        final(dataset).wf(),
        final(dataset).log() == old(dataset).log(),
        final(dataset).comments() == old(dataset).comments(),
        final(dataset).grid().height() == old(dataset).grid().height(),
        r is Ok <==> old(dataset).frames() > 0 && shape_fits(old(dataset).pixels(), old(dataset).grid().width() + 2),
        r is Err ==> final(dataset).grid() == old(dataset).grid() && r->Err_0 == (if old(dataset).frames() == 0 {
            Error::InsufficientData
        } else {
            Error::ShapeMismatch
        }),
        r is Ok ==> {
            &&& final(dataset).grid().width() == old(dataset).grid().width() + 2
            &&& forall|i: int, j: int|
                0 <= i < old(dataset).grid().height() && 0 <= j < old(dataset).grid().width()
                    ==> #[trigger] final(dataset).grid().at(i, j) == old(dataset).grid().at(i, j)
            &&& final(dataset).xs(old(dataset).frames() as int) == old(dataset).xs(0)
            &&& forall|i: int|
                0 <= i < old(dataset).grid().height() ==> call_ensures(
                    *sample,
                    (old(dataset).grid().at(i, 0),),
                    #[trigger] final(dataset).ys(old(dataset).frames() as int)[i],
                )
        },
{
    let n = dataset.frame_count();
    if n == 0 {
        return Err(Error::InsufficientData);
    }
    let h = dataset.rows();
    let xs = dataset.data().column_at(0);
    let mut ys: Vec<u64> = Vec::new();
    let mut i: usize = 0;
    while i < h
        invariant
            i <= h,
            h == xs.len(),
            ys.len() == i,
            forall|x: u64| call_requires(*sample, (x,)),
            forall|a: int| 0 <= a < i ==> call_ensures(*sample, (xs[a],), #[trigger] ys[a]),
        decreases h - i,
    {
        let y = sample(xs[i]);
        ys.push(y);
        i += 1;
    }
    proof {
        assert forall|a: int| 0 <= a < h implies xs[a] == old(dataset).grid().at(a, 0) by {
            assert(xs@[a] == old(dataset).grid().column(0)[a]);
        }
    }
    dataset.push_frame(&xs, &ys)
}

} // verus!
