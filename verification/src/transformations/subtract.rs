use crate::dataset::{
    all_in_bounds, contains_number, frame_in_bounds, kept_frames, lemma_kept_frames_ascending, lemma_kept_frames_contains,
    select_outcome, Dataset,
};
use crate::error::Error;
use crate::grid::{shape_fits, Grid};
use crate::utils::Arithmetic;
use vstd::prelude::*;

verus! {

/// Subtracts the intensities of one frame from those of other frames.
pub struct SubtractTransform {
    /// 1-based number of the frame to subtract.
    pub subtrahend: usize,
    /// 1-based numbers of the frames to subtract from; all others if absent.
    pub minuends: Option<Vec<usize>>,
    /// Subtract sample by sample, without first bringing the minuend onto
    /// the x-axis of the subtrahend.
    pub direct: bool,
}

impl SubtractTransform {
    /// The frame numbers by which the minuends are selected.
    pub open spec fn minuend_list(&self) -> Seq<usize> {
        match self.minuends {
            Some(m) => m@,
            None => seq![self.subtrahend],
        }
    }

    /// Whether the subtrahend is listed among the minuends.
    pub open spec fn subtracts_from_itself(&self) -> bool {
        self.minuends is Some && self.minuends->Some_0@.contains(self.subtrahend)
    }

    /// What [`Self::operands`] returns for a matrix `g` of `n` frames.
    pub open spec fn operands_outcome(&self, g: &Grid, n: nat, r: Result<(Grid, Grid), Error>) -> bool {
        let list = self.minuend_list();
        let invert = self.minuends is None;
        if self.subtracts_from_itself() {
            r == Err::<(Grid, Grid), Error>(Error::SubtrahendAmongMinuends)
        } else if !all_in_bounds(n, list) || kept_frames(n, list, invert).len() == 0 {
            r is Err && select_outcome(g, n, list, invert, Err(r->Err_0))
        } else if !frame_in_bounds(n, self.subtrahend) {
            r == Err::<(Grid, Grid), Error>(Error::OutOfRange { frame: self.subtrahend })
        } else {
            &&& r is Ok
            &&& select_outcome(g, n, list, invert, Ok(r->Ok_0.0))
            &&& select_outcome(g, n, seq![self.subtrahend], false, Ok(r->Ok_0.1))
        }
    }

    /// Checks the configuration against the dataset and hands out the two
    /// operands: the minuend frames in dataset order, and the subtrahend
    /// frame. A subtrahend that is listed as a minuend is refused before
    /// anything else is looked at.
    pub fn operands(&self, dataset: &Dataset) -> (r: Result<(Grid, Grid), Error>)
        requires
            dataset.wf(),
        ensures
            self.operands_outcome(&dataset.grid(), dataset.frames(), r),
    {
        let n = dataset.frame_count();
        let mut single: Vec<usize> = Vec::new();
        single.push(self.subtrahend);
        proof {
            assert(single@ =~= seq![self.subtrahend]);
        }
        let minuends = match &self.minuends {
            Some(list) => {
                if contains_number(list.as_slice(), self.subtrahend) {
                    return Err(Error::SubtrahendAmongMinuends);
                }
                match dataset.select_frames(list.as_slice(), false) {
                    Ok(g) => g,
                    Err(e) => {
                        return Err(e);
                    },
                }
            },
            None => match dataset.select_frames(single.as_slice(), true) {
                Ok(g) => g,
                Err(e) => {
                    return Err(e);
                },
            },
        };
        proof {
            assert(!self.subtracts_from_itself());
            assert(select_outcome(
                &dataset.grid(),
                n as nat,
                self.minuend_list(),
                self.minuends is None,
                Ok(minuends),
            ));
        }
        match dataset.select_frames(single.as_slice(), false) {
            Ok(g) => {
                proof {
                    let one = seq![self.subtrahend];
                    assert(frame_in_bounds(n as nat, one[0]));
                }
                Ok((minuends, g))
            },
            Err(e) => {
                proof {
                    let one = seq![self.subtrahend];
                    let c = crate::dataset::first_out_of_bounds(n as nat, one);
                    if frame_in_bounds(n as nat, self.subtrahend) {
                        assert(all_in_bounds(n as nat, one));
                        lemma_kept_frames_contains(n as nat, one, false, self.subtrahend - 1);
                        assert(one[0] == self.subtrahend);
                        assert(one.contains(self.subtrahend));
                        assert(kept_frames(n as nat, one, false).contains(self.subtrahend - 1));
                    } else {
                        assert(!frame_in_bounds(n as nat, one[0]));
                        assert(0 <= c < one.len());
                        assert(one[c] == self.subtrahend);
                    }
                }
                Err(e)
            },
        }
    }

    /// What [`Self::subtract`] does to a dataset of `n` frames whose matrix
    /// was `before` and is `after`. A configuration that [`Self::operands`]
    /// refuses is refused in the same way, and nothing changes. Otherwise
    /// the minuend frames take the place of the matrix, each with the
    /// difference to the subtrahend as its intensities.
    pub open spec fn subtract_outcome<
        I: Fn(u64, u64, u64, u64, u64) -> u64,
        A: Fn(u64, u64, u64, u64) -> u64,
        P: Fn(u64, u64) -> u64,
        Q: Fn(u64) -> u64,
        M: Fn(u64, u64) -> u64,
    >(&self, before: &Grid, after: &Grid, n: nat, r: Result<(), Error>, ops: &Arithmetic<I, A, P, Q>, minus: M) -> bool {
        let list = self.minuend_list();
        let invert = self.minuends is None;
        let kept = kept_frames(n, list, invert);
        if self.subtracts_from_itself() {
            r == Err::<(), Error>(Error::SubtrahendAmongMinuends) && *after == *before
        } else if !all_in_bounds(n, list) || kept.len() == 0 {
            r is Err && select_outcome(before, n, list, invert, Err(r->Err_0)) && *after == *before
        } else if !frame_in_bounds(n, self.subtrahend) {
            r == Err::<(), Error>(Error::OutOfRange { frame: self.subtrahend }) && *after == *before
        } else {
            &&& r is Ok
            &&& after.height() == before.height()
            &&& after.width() == 2 * kept.len()
            &&& forall|k: int|
                0 <= k < kept.len() ==> #[trigger] frame_difference(
                    before,
                    after,
                    k,
                    kept[k],
                    self.subtrahend - 1,
                    self.direct,
                    ops,
                    minus,
                )
        }
    }

    /// Subtracts the intensities of the subtrahend frame from those of the
    /// minuend frames, and puts the minuend frames, in dataset order, in
    /// place of the matrix.
    ///
    /// With `direct` set, each intensity of a minuend becomes what `minus`
    /// makes of it and of the intensity of the subtrahend in the same row.
    /// Otherwise the minuend is first brought onto the x-axis of the
    /// subtrahend, see [`Arithmetic::resampled_at`], and the x-axis of the
    /// subtrahend takes the place of the minuend's.
    ///
    /// A subtrahend that is listed as a minuend, frame numbers that name no
    /// frame, and a selection without frames are refused as by
    /// [`Self::operands`], and the dataset stays as it was.
    pub fn subtract<
        I: Fn(u64, u64, u64, u64, u64) -> u64,
        A: Fn(u64, u64, u64, u64) -> u64,
        P: Fn(u64, u64) -> u64,
        Q: Fn(u64) -> u64,
        M: Fn(u64, u64) -> u64,
    >(&self, dataset: &mut Dataset, ops: &Arithmetic<I, A, P, Q>, minus: &M) -> (r: Result<(), Error>)
        requires
            old(dataset).wf(),
            ops.lawful(),
            forall|a: u64, b: u64| call_requires(*minus, (a, b)),
        ensures
            final(dataset).wf(),
            final(dataset).log() == old(dataset).log(),
            final(dataset).comments() == old(dataset).comments(),
            self.subtract_outcome(&old(dataset).grid(), &final(dataset).grid(), old(dataset).frames(), r, ops, *minus),
    {
        let ghost before = dataset.grid();
        let ghost n = dataset.frames();
        let resample = |xs: &Vec<u64>, ys: &Vec<u64>, axis: &Vec<u64>| -> (out: Vec<u64>)
            ensures
                out.len() == axis.len(),
                forall|p: int| 0 <= p < axis.len() ==> #[trigger] out[p] == ops.resampled_at(xs@, ys@, axis[p]),
            { ops.linear_resample_array(xs, ys, axis) };
        let r = self.transform(dataset, &resample, minus);
        proof {
            let after = dataset.grid();
            let list = self.minuend_list();
            let invert = self.minuends is None;
            let kept = kept_frames(n, list, invert);
            let s = self.subtrahend - 1;
            if !self.subtracts_from_itself() && all_in_bounds(n, list) && kept.len() > 0 && frame_in_bounds(
                n,
                self.subtrahend,
            ) {
                if r is Err {
                    let (k, moved) = choose|k: int, moved: Seq<u64>|
                        0 <= k < kept.len() && moved.len() != before.height() && #[trigger] resampled(
                            before.column(2 * kept[k]),
                            before.column(2 * kept[k] + 1),
                            before.column(2 * s),
                            moved,
                            resample,
                        );
                    assert(false);
                }
                assert forall|k: int| 0 <= k < kept.len() implies #[trigger] frame_difference(
                    &before,
                    &after,
                    k,
                    kept[k],
                    s,
                    self.direct,
                    ops,
                    *minus,
                ) by {
                    assert(frame_subtracted(&before, &after, k, kept[k], s, self.direct, resample, *minus));
                    if !self.direct {
                        let moved = choose|moved: Seq<u64>| #[trigger]
                            differences_taken(&before, &after, k, kept[k], s, moved, resample, *minus);
                        assert forall|i: int| 0 <= i < before.height() implies call_ensures(
                            *minus,
                            (
                                ops.resampled_at(
                                    before.column(2 * kept[k]),
                                    before.column(2 * kept[k] + 1),
                                    before.at(i, 2 * s),
                                ),
                                before.at(i, 2 * s + 1),
                            ),
                            #[trigger] after.at(i, 2 * k + 1),
                        ) by {
                            assert(before.column(2 * s)[i] == before.at(i, 2 * s));
                        }
                    }
                }
            }
        }
        r
    }

    /// What [`Self::transform`] does to a dataset of `n` frames whose matrix
    /// was `before` and is `after`. A configuration that [`Self::operands`]
    /// refuses is refused in the same way. Otherwise the minuend frames
    /// take the place of the matrix, each with the difference to the
    /// subtrahend as its intensities; or nothing changes and the result is
    /// `ShapeMismatch`, because `resample` gave a column of the wrong length.
    pub open spec fn transform_outcome<R: Fn(&Vec<u64>, &Vec<u64>, &Vec<u64>) -> Vec<u64>, M: Fn(u64, u64) -> u64>(
        &self,
        before: &Grid,
        after: &Grid,
        n: nat,
        r: Result<(), Error>,
        resample: R,
        minus: M,
    ) -> bool {
        let list = self.minuend_list();
        let invert = self.minuends is None;
        let kept = kept_frames(n, list, invert);
        if self.subtracts_from_itself() {
            r == Err::<(), Error>(Error::SubtrahendAmongMinuends) && *after == *before
        } else if !all_in_bounds(n, list) || kept.len() == 0 {
            r is Err && select_outcome(before, n, list, invert, Err(r->Err_0)) && *after == *before
        } else if !frame_in_bounds(n, self.subtrahend) {
            r == Err::<(), Error>(Error::OutOfRange { frame: self.subtrahend }) && *after == *before
        } else if r is Err {
            &&& r == Err::<(), Error>(Error::ShapeMismatch)
            &&& !self.direct
            &&& *after == *before
            &&& exists|k: int, moved: Seq<u64>|
                0 <= k < kept.len() && moved.len() != before.height() && #[trigger] resampled(
                    before.column(2 * kept[k]),
                    before.column(2 * kept[k] + 1),
                    before.column(2 * (self.subtrahend - 1)),
                    moved,
                    resample,
                )
        } else {
            &&& after.height() == before.height()
            &&& after.width() == 2 * kept.len()
            &&& forall|k: int|
                0 <= k < kept.len() ==> #[trigger] frame_subtracted(
                    before,
                    after,
                    k,
                    kept[k],
                    self.subtrahend - 1,
                    self.direct,
                    resample,
                    minus,
                )
        }
    }

    /// Subtracts the intensities of the subtrahend frame from those of the
    /// minuend frames, and puts the minuend frames, in dataset order, in
    /// place of the matrix.
    ///
    /// With `direct` set, each intensity of a minuend becomes what `minus`
    /// makes of it and of the intensity of the subtrahend in the same row.
    /// Otherwise the minuend is first brought onto the x-axis of the
    /// subtrahend: `resample` is given the x-values and the intensities of
    /// the minuend and the x-values of the subtrahend, in this order, and
    /// what it returns takes the place of the minuend's intensities before
    /// `minus` is applied; the x-axis of the subtrahend takes the place of
    /// the minuend's.
    ///
    /// A subtrahend that is listed as a minuend, frame numbers that name no
    /// frame, and a selection without frames are refused as by
    /// [`Self::operands`]. A `resample` that returns a column of the wrong
    /// length leads to `ShapeMismatch`. Whenever the result is an error the
    /// dataset stays as it was.
    pub fn transform<R: Fn(&Vec<u64>, &Vec<u64>, &Vec<u64>) -> Vec<u64>, M: Fn(u64, u64) -> u64>(
        &self,
        dataset: &mut Dataset,
        resample: &R,
        minus: &M,
    ) -> (r: Result<(), Error>)
        requires
            old(dataset).wf(),
            forall|xs: &Vec<u64>, ys: &Vec<u64>, axis: &Vec<u64>| call_requires(*resample, (xs, ys, axis)),
            forall|a: u64, b: u64| call_requires(*minus, (a, b)),
        ensures
            final(dataset).wf(),
            final(dataset).log() == old(dataset).log(),
            final(dataset).comments() == old(dataset).comments(),
            self.transform_outcome(
                &old(dataset).grid(),
                &final(dataset).grid(),
                old(dataset).frames(),
                r,
                *resample,
                *minus,
            ),
    {
        let n = dataset.frame_count();
        let ghost before = dataset.grid();
        let (minuends, subtrahend) = match self.operands(dataset) {
            Ok(pair) => pair,
            Err(e) => {
                return Err(e);
            },
        };
        let ghost kept = kept_frames(n as nat, self.minuend_list(), self.minuends is None);
        let ghost s = self.subtrahend - 1;
        proof {
            lemma_kept_frames_ascending(n as nat, self.minuend_list(), self.minuends is None);
            lemma_kept_single(n as nat, self.subtrahend);
            assert forall|i: int, j: int| 0 <= i < before.height() && 0 <= j < 2 * kept.len() implies #[trigger] minuends.at(
                i,
                j,
            ) == before.at(i, 2 * kept[j / 2] + j % 2) by {
                assert(minuends@[i][j] == minuends.at(i, j));
            }
            assert forall|i: int, c: int| 0 <= i < before.height() && 0 <= c < 2 implies #[trigger] subtrahend.at(i, c)
                == before.at(i, 2 * s + c) by {
                assert(subtrahend@[i][c] == subtrahend.at(i, c));
            }
        }
        let h = minuends.rows();
        let frames = minuends.cols() / 2;
        let axis = subtrahend.column_at(0);
        let sub = subtrahend.column_at(1);
        proof {
            assert(axis@ =~= before.column(2 * s));
            assert(sub@ =~= before.column(2 * s + 1));
            let w = before.width();
            let p = minuends.width();
            assert(shape_fits(h as nat, p)) by (nonlinear_arith)
                requires
                    shape_fits(h as nat, w),
                    0 < p <= w,
            ;
        }
        let mut out = minuends;
        let ghost start = out;
        let mut k: usize = 0;
        while k < frames
            invariant
                k <= frames,
                dataset.grid() == before,
                *dataset == *old(dataset),
                old(dataset).wf(),
                n == before.width() / 2,
                kept == kept_frames(n as nat, self.minuend_list(), self.minuends is None),
                s == self.subtrahend - 1,
                !self.subtracts_from_itself(),
                all_in_bounds(n as nat, self.minuend_list()),
                kept.len() > 0,
                frame_in_bounds(n as nat, self.subtrahend),
                h == before.height(),
                frames == kept.len(),
                2 * frames <= usize::MAX,
                out.height() == h,
                out.width() == 2 * frames,
                start.height() == h,
                start.width() == 2 * frames,
                axis@ == before.column(2 * s),
                sub@ == before.column(2 * s + 1),
                0 <= s < before.width() / 2,
                before.width() % 2 == 0,
                shape_fits(h as nat, (2 * frames) as nat),
                forall|p: int| 0 <= p < kept.len() ==> 0 <= #[trigger] kept[p] < before.width() / 2,
                forall|xs: &Vec<u64>, ys: &Vec<u64>, axis: &Vec<u64>| call_requires(*resample, (xs, ys, axis)),
                forall|a: u64, b: u64| call_requires(*minus, (a, b)),
                forall|i: int, j: int|
                    0 <= i < h && 0 <= j < 2 * frames ==> #[trigger] start.at(i, j) == before.at(i, 2 * kept[j / 2] + j % 2),
                forall|i: int, j: int| 0 <= i < h && 2 * k <= j < 2 * frames ==> #[trigger] out.at(i, j) == start.at(i, j),
                forall|q: int|
                    0 <= q < k ==> #[trigger] frame_subtracted(&before, &out, q, kept[q], s, self.direct, *resample, *minus),
            decreases frames - k,
        {
            let xs = out.column_at(2 * k);
            let ys = out.column_at(2 * k + 1);
            proof {
                assert((2 * k) / 2 == k && (2 * k) % 2 == 0);
                assert((2 * k + 1) / 2 == k && (2 * k + 1) % 2 == 1);
                assert(xs@ =~= before.column(2 * kept[k as int]));
                assert(ys@ =~= before.column(2 * kept[k as int] + 1));
            }
            let moved = if self.direct { ys } else { resample(&xs, &ys, &axis) };
            if moved.len() != h {
                proof {
                    assert(call_ensures(*resample, (&xs, &ys, &axis), moved));
                    assert(resampled(
                        before.column(2 * kept[k as int]),
                        before.column(2 * kept[k as int] + 1),
                        before.column(2 * s),
                        moved@,
                        *resample,
                    ));
                }
                return Err(Error::ShapeMismatch);
            }
            let ghost entry = out;
            let mut i: usize = 0;
            while i < h
                invariant
                    i <= h,
                    k < frames,
                    2 * frames <= usize::MAX,
                    h == before.height(),
                    out.height() == h,
                    out.width() == 2 * frames,
                    entry.height() == h,
                    entry.width() == 2 * frames,
                    moved.len() == h,
                    sub.len() == h,
                    axis.len() == h,
                    forall|a: u64, b: u64| call_requires(*minus, (a, b)),
                    forall|a: int, j: int|
                        0 <= a < h && 0 <= j < 2 * frames && !(a < i && (j == 2 * k || j == 2 * k + 1)) ==> #[trigger] out.at(a, j)
                            == entry.at(a, j),
                    forall|a: int|
                        0 <= a < i ==> call_ensures(*minus, (moved[a], sub[a]), #[trigger] out.at(a, 2 * k + 1)),
                    forall|a: int|
                        0 <= a < i ==> #[trigger] out.at(a, 2 * k as int) == (if self.direct {
                            entry.at(a, 2 * k as int)
                        } else {
                            axis[a]
                        }),
                decreases h - i,
            {
                let d = minus(moved[i], sub[i]);
                out.put(i, 2 * k + 1, d);
                if !self.direct {
                    out.put(i, 2 * k, axis[i]);
                }
                i += 1;
            }
            proof {
                let src = kept[k as int];
                assert forall|a: int| 0 <= a < h implies #[trigger] entry.at(a, 2 * k as int) == before.at(a, 2 * src) by {
                    assert(entry.at(a, 2 * k as int) == start.at(a, 2 * k as int));
                }
                assert forall|a: int| 0 <= a < before.height() implies moved[a] == (if self.direct {
                    before.at(a, 2 * src + 1)
                } else {
                    moved[a]
                }) && sub[a] == before.at(a, 2 * s + 1) && axis[a] == before.at(a, 2 * s) by {
                    assert(sub[a] == before.column(2 * s + 1)[a]);
                    assert(axis[a] == before.column(2 * s)[a]);
                    if self.direct {
                        assert(moved[a] == before.column(2 * src + 1)[a]);
                    }
                }
                if !self.direct {
                    assert(call_ensures(*resample, (&xs, &ys, &axis), moved));
                    assert(resampled(
                        before.column(2 * src),
                        before.column(2 * src + 1),
                        before.column(2 * s),
                        moved@,
                        *resample,
                    ));
                    assert(differences_taken(&before, &out, k as int, src, s, moved@, *resample, *minus));
                }
                assert(frame_subtracted(&before, &out, k as int, src, s, self.direct, *resample, *minus));
                assert forall|q: int| 0 <= q < k implies #[trigger] frame_subtracted(
                    &before,
                    &out,
                    q,
                    kept[q],
                    s,
                    self.direct,
                    *resample,
                    *minus,
                ) by {
                    assert(frame_subtracted(&before, &entry, q, kept[q], s, self.direct, *resample, *minus));
                    lemma_frame_subtracted_stays(&before, &entry, &out, q, kept[q], s, self.direct, *resample, *minus);
                }
            }
            k += 1;
        }
        dataset.replace_grid(out);
        Ok(())
    }
}

/// Whether `out` is what `resample` returned for the x-values `xs` and the
/// intensities `ys` of a frame and the x-values `axis` to bring it onto.
pub open spec fn resampled<R: Fn(&Vec<u64>, &Vec<u64>, &Vec<u64>) -> Vec<u64>>(
    xs: Seq<u64>,
    ys: Seq<u64>,
    axis: Seq<u64>,
    out: Seq<u64>,
    resample: R,
) -> bool {
    exists|vx: Vec<u64>, vy: Vec<u64>, va: Vec<u64>, vo: Vec<u64>|
        vx@ == xs && vy@ == ys && va@ == axis && vo@ == out && #[trigger] call_ensures(resample, (&vx, &vy, &va), vo)
}

/// Whether frame `k` of `after` is frame `source` of `before` minus frame
/// `subtrahend` of `before`.
///
/// Directly: the x-axis is kept, and each intensity is what `minus` made of
/// it and of the intensity of the subtrahend in its row. Else: the x-axis
/// is that of the subtrahend, and each intensity is what `minus` made of
/// the resampled intensity and of the intensity of the subtrahend.
pub open spec fn frame_subtracted<R: Fn(&Vec<u64>, &Vec<u64>, &Vec<u64>) -> Vec<u64>, M: Fn(u64, u64) -> u64>(
    before: &Grid,
    after: &Grid,
    k: int,
    source: int,
    subtrahend: int,
    direct: bool,
    resample: R,
    minus: M,
) -> bool {
    if direct {
        &&& forall|i: int| 0 <= i < before.height() ==> #[trigger] after.at(i, 2 * k) == before.at(i, 2 * source)
        &&& forall|i: int|
            0 <= i < before.height() ==> call_ensures(
                minus,
                (before.at(i, 2 * source + 1), before.at(i, 2 * subtrahend + 1)),
                #[trigger] after.at(i, 2 * k + 1),
            )
    } else {
        &&& forall|i: int| 0 <= i < before.height() ==> #[trigger] after.at(i, 2 * k) == before.at(i, 2 * subtrahend)
        &&& exists|moved: Seq<u64>| #[trigger]
            differences_taken(before, after, k, source, subtrahend, moved, resample, minus)
    }
}

/// Whether `moved` is frame `source` of `before` brought onto the x-axis of
/// frame `subtrahend`, and each intensity of frame `k` of `after` is what
/// `minus` made of the sample of `moved` and of the intensity of the
/// subtrahend in its row.
pub open spec fn differences_taken<R: Fn(&Vec<u64>, &Vec<u64>, &Vec<u64>) -> Vec<u64>, M: Fn(u64, u64) -> u64>(
    before: &Grid,
    after: &Grid,
    k: int,
    source: int,
    subtrahend: int,
    moved: Seq<u64>,
    resample: R,
    minus: M,
) -> bool {
    &&& moved.len() == before.height()
    &&& resampled(
        before.column(2 * source),
        before.column(2 * source + 1),
        before.column(2 * subtrahend),
        moved,
        resample,
    )
    &&& forall|i: int|
        0 <= i < before.height() ==> call_ensures(
            minus,
            (moved[i], before.at(i, 2 * subtrahend + 1)),
            #[trigger] after.at(i, 2 * k + 1),
        )
}

/// What holds of a frame keeps holding while its two columns stay.
proof fn lemma_frame_subtracted_stays<R: Fn(&Vec<u64>, &Vec<u64>, &Vec<u64>) -> Vec<u64>, M: Fn(u64, u64) -> u64>(
    before: &Grid,
    earlier: &Grid,
    later: &Grid,
    k: int,
    source: int,
    subtrahend: int,
    direct: bool,
    resample: R,
    minus: M,
)
    requires
        frame_subtracted(before, earlier, k, source, subtrahend, direct, resample, minus),
        forall|i: int| 0 <= i < before.height() ==> #[trigger] later.at(i, 2 * k) == earlier.at(i, 2 * k),
        forall|i: int| 0 <= i < before.height() ==> #[trigger] later.at(i, 2 * k + 1) == earlier.at(i, 2 * k + 1),
    ensures
        frame_subtracted(before, later, k, source, subtrahend, direct, resample, minus),
{
    if !direct {
        let moved = choose|moved: Seq<u64>| #[trigger]
            differences_taken(before, earlier, k, source, subtrahend, moved, resample, minus);
        assert(differences_taken(before, later, k, source, subtrahend, moved, resample, minus));
    }
}

/// Selecting the single frame `s` of `n` frames keeps that frame.
proof fn lemma_kept_single(n: nat, s: usize)
    requires
        1 <= s <= n,
        n <= usize::MAX,
    ensures
        kept_frames(n, seq![s], false) == seq![s - 1],
    decreases n,
{
    let one = seq![s];
    assert(one[0] == s);
    assert(forall|x: usize| one.contains(x) <==> x == s);
    if n > s {
        lemma_kept_single((n - 1) as nat, s);
    } else {
        lemma_kept_none((n - 1) as nat, s);
        assert(Seq::<int>::empty().push(n - 1) =~= seq![s - 1]);
    }
}

/// Selecting the single frame `s` among fewer than `s` frames keeps none.
proof fn lemma_kept_none(n: nat, s: usize)
    requires
        n < s,
    ensures
        kept_frames(n, seq![s], false) == Seq::<int>::empty(),
    decreases n,
{
    let one = seq![s];
    assert(one[0] == s);
    assert(forall|x: usize| one.contains(x) <==> x == s);
    if n > 0 {
        lemma_kept_none((n - 1) as nat, s);
    }
}

/// Whether frame `k` of `after` is frame `source` of `before` minus frame
/// `subtrahend` of `before`.
///
/// Directly: the x-axis is kept, and each intensity is what `minus` made of
/// it and of the intensity of the subtrahend in its row. Else: the x-axis
/// is that of the subtrahend, and each intensity is what `minus` made of
/// the value of the frame at the x-value of the subtrahend in its row and
/// of the intensity of the subtrahend there.
pub open spec fn frame_difference<
    I: Fn(u64, u64, u64, u64, u64) -> u64,
    A: Fn(u64, u64, u64, u64) -> u64,
    P: Fn(u64, u64) -> u64,
    Q: Fn(u64) -> u64,
    M: Fn(u64, u64) -> u64,
>(
    before: &Grid,
    after: &Grid,
    k: int,
    source: int,
    subtrahend: int,
    direct: bool,
    ops: &Arithmetic<I, A, P, Q>,
    minus: M,
) -> bool {
    if direct {
        &&& forall|i: int| 0 <= i < before.height() ==> #[trigger] after.at(i, 2 * k) == before.at(i, 2 * source)
        &&& forall|i: int|
            0 <= i < before.height() ==> call_ensures(
                minus,
                (before.at(i, 2 * source + 1), before.at(i, 2 * subtrahend + 1)),
                #[trigger] after.at(i, 2 * k + 1),
            )
    } else {
        &&& forall|i: int| 0 <= i < before.height() ==> #[trigger] after.at(i, 2 * k) == before.at(i, 2 * subtrahend)
        &&& forall|i: int|
            0 <= i < before.height() ==> call_ensures(
                minus,
                (
                    ops.resampled_at(
                        before.column(2 * source),
                        before.column(2 * source + 1),
                        before.at(i, 2 * subtrahend),
                    ),
                    before.at(i, 2 * subtrahend + 1),
                ),
                #[trigger] after.at(i, 2 * k + 1),
            )
    }
}

} // verus!
