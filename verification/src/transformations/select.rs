use crate::dataset::{kept_frames, lemma_kept_frames_ascending, select_outcome, Dataset};
use crate::error::Error;
use crate::grid::{shape_fits, Grid};
use vstd::prelude::*;

verus! {

/// Keeps the listed frames, or, inverted, all but the listed frames.
pub struct SelectTransform {
    /// 1-based frame numbers.
    pub frames: Vec<usize>,
    /// Discard the listed frames instead of keeping them.
    pub invert: bool,
}

impl SelectTransform {
    /// Replaces the matrix by the selection. When the selection is refused
    /// the dataset stays as it was.
    pub fn transform(&self, dataset: &mut Dataset) -> (r: Result<(), Error>)
        requires
            old(dataset).wf(),
        ensures
            final(dataset).wf(),
            final(dataset).log() == old(dataset).log(),
            final(dataset).comments() == old(dataset).comments(),
            r is Ok ==> select_outcome(
                &old(dataset).grid(),
                old(dataset).frames(),
                self.frames@,
                self.invert,
                Ok(final(dataset).grid()),
            ),
            r is Err ==> final(dataset).grid() == old(dataset).grid() && select_outcome(
                &old(dataset).grid(),
                old(dataset).frames(),
                self.frames@,
                self.invert,
                Err(r->Err_0),
            ),
    {
        let n = dataset.frame_count();
        match dataset.select_frames(self.frames.as_slice(), self.invert) {
            Ok(g) => {
                proof {
                    let kept = kept_frames(n as nat, self.frames@, self.invert);
                    lemma_kept_frames_ascending(n as nat, self.frames@, self.invert);
                    let h = g.height();
                    let w = old(dataset).grid().width();
                    let p = g.width();
                    assert(shape_fits(h, p)) by (nonlinear_arith)
                        requires
                            shape_fits(h, w),
                            0 < p <= w,
                    ;
                }
                dataset.replace_grid(g);
                Ok(())
            },
            Err(e) => Err(e),
        }
    }
}

} // verus!
