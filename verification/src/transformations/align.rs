use crate::dataset::Dataset;
use crate::error::Error;
use crate::grid::Grid;
use crate::utils::Arithmetic;
use vstd::prelude::*;

verus! {

/// Whether column `j` of `g` holds the samples `o`, top to bottom.
pub open spec fn column_is(g: &Grid, j: int, o: Seq<u64>) -> bool {
    &&& o.len() == g.height()
    &&& forall|i: int| 0 <= i < g.height() ==> #[trigger] g.at(i, j) == o[i]
}

/// Whether the columns `j` of `after` and `before` hold the same samples.
pub open spec fn column_kept(before: &Grid, after: &Grid, j: int) -> bool {
    forall|i: int| 0 <= i < before.height() ==> #[trigger] after.at(i, j) == before.at(i, j)
}

/// Whether `outcome` is what `align` returned when it was given the
/// x-values and the intensities of the first frame of `g` and the
/// intensities of frame `k`.
pub open spec fn alignment_taken<A: Fn(&Vec<u64>, &Vec<u64>, &Vec<u64>) -> Result<Vec<u64>, Error>>(
    g: &Grid,
    k: int,
    outcome: Result<Vec<u64>, Error>,
    align: A,
) -> bool {
    exists|vx: Vec<u64>, vy: Vec<u64>, vf: Vec<u64>|
        vx@ == g.column(0) && vy@ == g.column(1) && vf@ == g.column(2 * k + 1) && #[trigger] call_ensures(
            align,
            (&vx, &vy, &vf),
            outcome,
        )
}

/// Whether frame `k` of `after` is frame `k` of `before` aligned with the
/// first frame: it has the x-axis of the first frame, and its intensities
/// are what `align` returned for it.
pub open spec fn frame_aligned<A: Fn(&Vec<u64>, &Vec<u64>, &Vec<u64>) -> Result<Vec<u64>, Error>>(
    before: &Grid,
    after: &Grid,
    k: int,
    align: A,
) -> bool {
    &&& forall|i: int| 0 <= i < before.height() ==> #[trigger] after.at(i, 2 * k) == before.at(i, 0)
    &&& exists|o: Vec<u64>| #[trigger] alignment_taken(before, k, Ok(o), align) && column_is(after, 2 * k + 1, o@)
}

/// What holds of frame `k` once the frames below number `m` are aligned:
/// the first frame is untouched, a later frame below `m` is aligned, and
/// any other frame is untouched.
pub open spec fn frame_placed<A: Fn(&Vec<u64>, &Vec<u64>, &Vec<u64>) -> Result<Vec<u64>, Error>>(
    before: &Grid,
    after: &Grid,
    k: int,
    m: int,
    align: A,
) -> bool {
    if 1 <= k < m {
        frame_aligned(before, after, k, align)
    } else {
        column_kept(before, after, 2 * k) && column_kept(before, after, 2 * k + 1)
    }
}

/// Whether `after` is `before` with the frames below number `m` aligned
/// with the first frame and nothing else changed.
pub open spec fn aligned_upto<A: Fn(&Vec<u64>, &Vec<u64>, &Vec<u64>) -> Result<Vec<u64>, Error>>(
    before: &Grid,
    after: &Grid,
    m: int,
    align: A,
) -> bool {
    &&& after.height() == before.height()
    &&& after.width() == before.width()
    &&& forall|k: int| 0 <= k < before.width() / 2 ==> #[trigger] frame_placed(before, after, k, m, align)
}

/// Whether aligning frame `k` of `g` failed with `e`: `align` returned that
/// error, or, for `ShapeMismatch`, it returned intensities that are not as
/// many as the rows.
pub open spec fn alignment_failed<A: Fn(&Vec<u64>, &Vec<u64>, &Vec<u64>) -> Result<Vec<u64>, Error>>(
    g: &Grid,
    k: int,
    e: Error,
    align: A,
) -> bool {
    ||| alignment_taken(g, k, Err(e), align)
    ||| e == Error::ShapeMismatch && exists|o: Vec<u64>| #[trigger] alignment_taken(g, k, Ok(o), align) && o.len() != g.height()
}

/// What [`align_frames`] does: either every frame but the first is
/// aligned, or aligning one of them failed and the frames before it are
/// aligned while it and those behind it are untouched.
pub open spec fn align_outcome<A: Fn(&Vec<u64>, &Vec<u64>, &Vec<u64>) -> Result<Vec<u64>, Error>>(
    before: &Grid,
    after: &Grid,
    r: Result<(), Error>,
    align: A,
) -> bool {
    match r {
        Ok(()) => aligned_upto(before, after, before.width() as int / 2, align),
        Err(e) => exists|m: int|
            1 <= m < before.width() / 2 && alignment_failed(before, m, e, align) && #[trigger] aligned_upto(
                before,
                after,
                m,
                align,
            ),
    }
}

/// What holds of a frame keeps holding while its two columns stay.
proof fn lemma_frame_placed_stays<A: Fn(&Vec<u64>, &Vec<u64>, &Vec<u64>) -> Result<Vec<u64>, Error>>(
    before: &Grid,
    earlier: &Grid,
    later: &Grid,
    k: int,
    m: int,
    align: A,
)
    requires
        frame_placed(before, earlier, k, m, align),
        earlier.height() == before.height(),
        later.height() == before.height(),
        column_kept(earlier, later, 2 * k),
        column_kept(earlier, later, 2 * k + 1),
    ensures
        frame_placed(before, later, k, m, align),
{
    if 1 <= k < m {
        let o = choose|o: Vec<u64>| #[trigger] alignment_taken(before, k, Ok(o), align) && column_is(earlier, 2 * k + 1, o@);
        assert(alignment_taken(before, k, Ok(o), align) && column_is(later, 2 * k + 1, o@));
    }
}

/// Aligns every frame but the first with the first, in dataset order:
/// `align` is given the x-values and the intensities of the first frame
/// and the intensities of the frame, and returns the intensities of the
/// aligned frame, which take the place of the old; the x-axis of the first
/// frame takes the place of the frame's own.
///
/// When `align` fails for a frame, aligning ends with its error, and when
/// it returns intensities that are not as many as the rows, with
/// `ShapeMismatch`; the frames before that one stay aligned.
pub fn align_frames<A: Fn(&Vec<u64>, &Vec<u64>, &Vec<u64>) -> Result<Vec<u64>, Error>>(dataset: &mut Dataset, align: &A) -> (r:
    Result<(), Error>)
    requires
        forall|xs: &Vec<u64>, ys: &Vec<u64>, frame: &Vec<u64>| call_requires(*align, (xs, ys, frame)),
    ensures
        final(dataset).log() == old(dataset).log(),
        final(dataset).comments() == old(dataset).comments(),
        align_outcome(&old(dataset).grid(), &final(dataset).grid(), r, *align),
{
    let h = dataset.rows();
    let n = dataset.frame_count();
    let ghost before = dataset.grid();
    if n < 2 {
        proof {
            assert forall|k: int| 0 <= k < before.width() / 2 implies #[trigger] frame_placed(
                &before,
                &before,
                k,
                n as int,
                *align,
            ) by {}
        }
        return Ok(());
    }
    let ref_x = dataset.data().column_at(0);
    let ref_y = dataset.data().column_at(1);
    let mut k: usize = 1;
    while k < n
        invariant
            1 <= k <= n,
            n == before.width() / 2,
            2 * n <= usize::MAX,
            h == before.height(),
            before == old(dataset).grid(),
            dataset.log() == old(dataset).log(),
            dataset.comments() == old(dataset).comments(),
            ref_x@ == before.column(0),
            ref_y@ == before.column(1),
            forall|xs: &Vec<u64>, ys: &Vec<u64>, frame: &Vec<u64>| call_requires(*align, (xs, ys, frame)),
            aligned_upto(&before, &dataset.grid(), k as int, *align),
        decreases n - k,
    {
        let ghost entry = dataset.grid();
        proof {
            assert(frame_placed(&before, &entry, k as int, k as int, *align));
        }
        let frame = dataset.data().column_at(2 * k + 1);
        proof {
            assert(frame@ =~= before.column(2 * k + 1));
        }
        let moved = match align(&ref_x, &ref_y, &frame) {
            Ok(moved) => moved,
            Err(e) => {
                proof {
                    assert(call_ensures(*align, (&ref_x, &ref_y, &frame), Err::<Vec<u64>, Error>(e)));
                    assert(alignment_taken(&before, k as int, Err(e), *align));
                }
                return Err(e);
            },
        };
        proof {
            assert(call_ensures(*align, (&ref_x, &ref_y, &frame), Ok::<Vec<u64>, Error>(moved)));
            assert(alignment_taken(&before, k as int, Ok(moved), *align));
        }
        if moved.len() != h {
            return Err(Error::ShapeMismatch);
        }
        let mut i: usize = 0;
        while i < h
            invariant
                i <= h,
                1 <= k < n,
                n == before.width() / 2,
                2 * n <= usize::MAX,
                h == before.height(),
                moved.len() == h,
                ref_x.len() == h,
                dataset.log() == old(dataset).log(),
                dataset.comments() == old(dataset).comments(),
                dataset.grid().height() == before.height(),
                dataset.grid().width() == before.width(),
                entry.height() == before.height(),
                entry.width() == before.width(),
                forall|a: int, j: int|
                    0 <= a < h && 0 <= j < before.width() && !(a < i && (j == 2 * k || j == 2 * k + 1)) ==> #[trigger] dataset.grid().at(
                        a,
                        j,
                    ) == entry.at(a, j),
                forall|a: int| 0 <= a < i ==> #[trigger] dataset.grid().at(a, 2 * k as int) == ref_x[a],
                forall|a: int| 0 <= a < i ==> #[trigger] dataset.grid().at(a, 2 * k + 1) == moved[a],
            decreases h - i,
        {
            dataset.put(i, 2 * k, ref_x[i]);
            dataset.put(i, 2 * k + 1, moved[i]);
            i += 1;
        }
        proof {
            let now = dataset.grid();
            assert forall|a: int| 0 <= a < h implies #[trigger] now.at(a, 2 * k as int) == before.at(a, 0) by {
                assert(ref_x[a] == before.column(0)[a]);
            }
            assert(column_is(&now, 2 * k + 1, moved@));
            assert(alignment_taken(&before, k as int, Ok(moved), *align) && column_is(&now, 2 * k + 1, moved@));
            assert(frame_aligned(&before, &now, k as int, *align));
            assert forall|q: int| 0 <= q < before.width() / 2 implies #[trigger] frame_placed(
                &before,
                &now,
                q,
                k + 1,
                *align,
            ) by {
                assert(frame_placed(&before, &entry, q, k as int, *align));
                if q != k {
                    assert(column_kept(&entry, &now, 2 * q)) by {
                        assert forall|i: int| 0 <= i < entry.height() implies #[trigger] now.at(i, 2 * q) == entry.at(i, 2 * q) by {}
                    }
                    assert(column_kept(&entry, &now, 2 * q + 1)) by {
                        assert forall|i: int| 0 <= i < entry.height() implies #[trigger] now.at(i, 2 * q + 1) == entry.at(
                            i,
                            2 * q + 1,
                        ) by {}
                    }
                    lemma_frame_placed_stays(&before, &entry, &now, q, k as int, *align);
                    if 1 <= q < k {
                    } else {
                        assert(column_kept(&before, &now, 2 * q));
                        assert(column_kept(&before, &now, 2 * q + 1));
                    }
                }
            }
        }
        k += 1;
    }
    Ok(())
}

/// The x-values `xs`, each with `dx` added.
pub open spec fn shifted_axis<
    I: Fn(u64, u64, u64, u64, u64) -> u64,
    A: Fn(u64, u64, u64, u64) -> u64,
    P: Fn(u64, u64) -> u64,
    Q: Fn(u64) -> u64,
>(xs: Seq<u64>, dx: u64, ops: &Arithmetic<I, A, P, Q>) -> Seq<u64> {
    Seq::new(xs.len(), |i: int| ops.sum(xs[i], dx))
}

/// Whether `outcome` is what `shift` returned when it was given the
/// intensities of the first frame of `g` and those of frame `k`.
pub open spec fn shift_taken<S: Fn(&Vec<u64>, &Vec<u64>) -> Result<u64, Error>>(
    g: &Grid,
    k: int,
    outcome: Result<u64, Error>,
    shift: S,
) -> bool {
    exists|vy: Vec<u64>, vf: Vec<u64>|
        vy@ == g.column(1) && vf@ == g.column(2 * k + 1) && #[trigger] call_ensures(shift, (&vy, &vf), outcome)
}

/// Whether the intensities of frame `k` of `after` are those of frame `k`
/// of `before` moved by `dx`: the value, at each x-value of the first
/// frame, of the curve that has the intensities of the frame at the
/// x-values of the first frame plus `dx`.
pub open spec fn moved_by<
    I: Fn(u64, u64, u64, u64, u64) -> u64,
    A: Fn(u64, u64, u64, u64) -> u64,
    P: Fn(u64, u64) -> u64,
    Q: Fn(u64) -> u64,
>(before: &Grid, after: &Grid, k: int, dx: u64, ops: &Arithmetic<I, A, P, Q>) -> bool {
    forall|i: int|
        0 <= i < before.height() ==> #[trigger] after.at(i, 2 * k + 1) == ops.resampled_at(
            shifted_axis(before.column(0), dx, ops),
            before.column(2 * k + 1),
            before.at(i, 0),
        )
}

/// Whether frame `k` of `after` is frame `k` of `before` aligned with the
/// first frame: it has the x-axis of the first frame, and its intensities
/// are moved by the shift that `shift` found for it.
pub open spec fn frame_shifted<
    I: Fn(u64, u64, u64, u64, u64) -> u64,
    A: Fn(u64, u64, u64, u64) -> u64,
    P: Fn(u64, u64) -> u64,
    Q: Fn(u64) -> u64,
    S: Fn(&Vec<u64>, &Vec<u64>) -> Result<u64, Error>,
>(before: &Grid, after: &Grid, k: int, ops: &Arithmetic<I, A, P, Q>, shift: S) -> bool {
    &&& forall|i: int| 0 <= i < before.height() ==> #[trigger] after.at(i, 2 * k) == before.at(i, 0)
    &&& exists|dx: u64| #[trigger] shift_taken(before, k, Ok(dx), shift) && moved_by(before, after, k, dx, ops)
}

/// What holds of frame `k` once the frames below number `m` are aligned:
/// the first frame is untouched, a later frame below `m` is aligned, and
/// any other frame is untouched.
pub open spec fn frame_moved<
    I: Fn(u64, u64, u64, u64, u64) -> u64,
    A: Fn(u64, u64, u64, u64) -> u64,
    P: Fn(u64, u64) -> u64,
    Q: Fn(u64) -> u64,
    S: Fn(&Vec<u64>, &Vec<u64>) -> Result<u64, Error>,
>(before: &Grid, after: &Grid, k: int, m: int, ops: &Arithmetic<I, A, P, Q>, shift: S) -> bool {
    if 1 <= k < m {
        frame_shifted(before, after, k, ops, shift)
    } else {
        column_kept(before, after, 2 * k) && column_kept(before, after, 2 * k + 1)
    }
}

/// Whether `after` is `before` with the frames below number `m` aligned
/// with the first frame and nothing else changed.
pub open spec fn shifted_upto<
    I: Fn(u64, u64, u64, u64, u64) -> u64,
    A: Fn(u64, u64, u64, u64) -> u64,
    P: Fn(u64, u64) -> u64,
    Q: Fn(u64) -> u64,
    S: Fn(&Vec<u64>, &Vec<u64>) -> Result<u64, Error>,
>(before: &Grid, after: &Grid, m: int, ops: &Arithmetic<I, A, P, Q>, shift: S) -> bool {
    &&& after.height() == before.height()
    &&& after.width() == before.width()
    &&& forall|k: int| 0 <= k < before.width() / 2 ==> #[trigger] frame_moved(before, after, k, m, ops, shift)
}

/// The intensities `frame`, which belong to the x-values `ref_x`, moved by
/// `dx` and brought back onto `ref_x`.
fn moved_frame<
    I: Fn(u64, u64, u64, u64, u64) -> u64,
    A: Fn(u64, u64, u64, u64) -> u64,
    P: Fn(u64, u64) -> u64,
    Q: Fn(u64) -> u64,
>(ops: &Arithmetic<I, A, P, Q>, ref_x: &Vec<u64>, frame: &Vec<u64>, dx: u64) -> (v: Vec<u64>)
    requires
        ops.lawful(),
    ensures
        v.len() == ref_x.len(),
        forall|i: int|
            0 <= i < ref_x.len() ==> #[trigger] v[i] == ops.resampled_at(shifted_axis(ref_x@, dx, ops), frame@, ref_x[i]),
{
    let mut shifted: Vec<u64> = Vec::new();
    let mut i: usize = 0;
    while i < ref_x.len()
        invariant
            i <= ref_x.len(),
            ops.lawful(),
            shifted.len() == i,
            forall|a: int| 0 <= a < i ==> #[trigger] shifted[a] == ops.sum(ref_x[a], dx),
        decreases ref_x.len() - i,
    {
        shifted.push(ops.plus(ref_x[i], dx));
        i += 1;
    }
    proof {
        assert(shifted@ =~= shifted_axis(ref_x@, dx, ops));
    }
    ops.linear_resample_array(&shifted, frame, ref_x)
}

/// Aligns every frame but the first with the first, in dataset order:
/// `shift` is given the intensities of the first frame and those of the
/// frame, and returns by how much the frame is to be moved along the
/// x-axis. The intensities of the frame are then taken at the x-values of
/// the first frame plus that shift and brought back onto the x-values of
/// the first frame, see [`Arithmetic::resampled_at`]; the x-axis of the
/// first frame takes the place of the frame's own.
///
/// When `shift` fails for a frame, aligning ends with its error; the
/// frames before that one stay aligned.
pub fn align_by_shift<
    I: Fn(u64, u64, u64, u64, u64) -> u64,
    A: Fn(u64, u64, u64, u64) -> u64,
    P: Fn(u64, u64) -> u64,
    Q: Fn(u64) -> u64,
    S: Fn(&Vec<u64>, &Vec<u64>) -> Result<u64, Error>,
>(dataset: &mut Dataset, ops: &Arithmetic<I, A, P, Q>, shift: &S) -> (r: Result<(), Error>)
    requires
        ops.lawful(),
        forall|ys: &Vec<u64>, frame: &Vec<u64>| call_requires(*shift, (ys, frame)),
    ensures
        final(dataset).log() == old(dataset).log(),
        final(dataset).comments() == old(dataset).comments(),
        r is Ok ==> shifted_upto(
            &old(dataset).grid(),
            &final(dataset).grid(),
            old(dataset).grid().width() as int / 2,
            ops,
            *shift,
        ),
        r is Err ==> exists|m: int|
            1 <= m < old(dataset).grid().width() / 2 && shift_taken(&old(dataset).grid(), m, Err(r->Err_0), *shift)
                && #[trigger] shifted_upto(&old(dataset).grid(), &final(dataset).grid(), m, ops, *shift),
{
    let ghost before = dataset.grid();
    let align = |ref_x: &Vec<u64>, ref_y: &Vec<u64>, frame: &Vec<u64>| -> (o: Result<Vec<u64>, Error>)
        ensures
            match o {
                Ok(v) => v.len() == ref_x.len() && exists|dx: u64| #[trigger]
                    call_ensures(*shift, (ref_y, frame), Ok::<u64, Error>(dx)) && forall|i: int|
                        0 <= i < ref_x.len() ==> #[trigger] v[i] == ops.resampled_at(
                            shifted_axis(ref_x@, dx, ops),
                            frame@,
                            ref_x[i],
                        ),
                Err(e) => call_ensures(*shift, (ref_y, frame), Err::<u64, Error>(e)),
            },
        {
            match shift(ref_y, frame) {
                Ok(dx) => Ok(moved_frame(ops, ref_x, frame, dx)),
                Err(e) => Err(e),
            }
        };
    let r = align_frames(dataset, &align);
    proof {
        let after = dataset.grid();
        let frames = before.width() as int / 2;
        let m = match r {
            Ok(()) => frames,
            Err(e) => choose|m: int|
                1 <= m < before.width() / 2 && alignment_failed(&before, m, e, align) && #[trigger] aligned_upto(
                    &before,
                    &after,
                    m,
                    align,
                ),
        };
        assert(aligned_upto(&before, &after, m, align));
        assert forall|k: int| 0 <= k < before.width() / 2 implies #[trigger] frame_moved(&before, &after, k, m, ops, *shift) by {
            assert(frame_placed(&before, &after, k, m, align));
            if 1 <= k < m {
                let o = choose|o: Vec<u64>| #[trigger] alignment_taken(&before, k, Ok(o), align) && column_is(&after, 2 * k + 1, o@);
                let (vx, vy, vf) = choose|vx: Vec<u64>, vy: Vec<u64>, vf: Vec<u64>|
                    vx@ == before.column(0) && vy@ == before.column(1) && vf@ == before.column(2 * k + 1)
                        && #[trigger] call_ensures(align, (&vx, &vy, &vf), Ok::<Vec<u64>, Error>(o));
                let dx = choose|dx: u64| #[trigger]
                    call_ensures(*shift, (&vy, &vf), Ok::<u64, Error>(dx)) && forall|i: int|
                        0 <= i < vx.len() ==> #[trigger] o[i] == ops.resampled_at(shifted_axis(vx@, dx, ops), vf@, vx[i]);
                assert(shift_taken(&before, k, Ok(dx), *shift));
                assert forall|i: int| 0 <= i < before.height() implies #[trigger] after.at(i, 2 * k + 1) == ops.resampled_at(
                    shifted_axis(before.column(0), dx, ops),
                    before.column(2 * k + 1),
                    before.at(i, 0),
                ) by {
                    assert(after.at(i, 2 * k + 1) == o@[i]);
                    assert(vx[i] == before.column(0)[i]);
                }
                assert(shift_taken(&before, k, Ok(dx), *shift) && moved_by(&before, &after, k, dx, ops));
            }
        }
        assert(shifted_upto(&before, &after, m, ops, *shift));
        if r is Err {
            let e = r->Err_0;
            assert(alignment_failed(&before, m, e, align));
            if alignment_taken(&before, m, Err(e), align) {
                let (vx, vy, vf) = choose|vx: Vec<u64>, vy: Vec<u64>, vf: Vec<u64>|
                    vx@ == before.column(0) && vy@ == before.column(1) && vf@ == before.column(2 * m + 1)
                        && #[trigger] call_ensures(align, (&vx, &vy, &vf), Err::<Vec<u64>, Error>(e));
                assert(call_ensures(*shift, (&vy, &vf), Err::<u64, Error>(e)));
                assert(shift_taken(&before, m, Err(e), *shift));
            } else {
                let o = choose|o: Vec<u64>| #[trigger] alignment_taken(&before, m, Ok(o), align) && o.len() != before.height();
                let (vx, vy, vf) = choose|vx: Vec<u64>, vy: Vec<u64>, vf: Vec<u64>|
                    vx@ == before.column(0) && vy@ == before.column(1) && vf@ == before.column(2 * m + 1)
                        && #[trigger] call_ensures(align, (&vx, &vy, &vf), Ok::<Vec<u64>, Error>(o));
                assert(o.len() == vx.len());
                assert(false);
            }
            assert(1 <= m < before.width() / 2 && shift_taken(&before, m, Err(e), *shift) && shifted_upto(
                &before,
                &after,
                m,
                ops,
                *shift,
            ));
        }
    }
    r
}

} // verus!
