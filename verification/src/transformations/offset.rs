use crate::dataset::{all_in_bounds, first_out_of_bounds, intensities_mapped, Dataset};
use crate::error::Error;
use crate::grid::Grid;
use crate::utils::Arithmetic;
use crate::transformations::normalize::{normalize, normalize_outcome};
use vstd::prelude::*;

verus! {

/// Offsets the intensities of the targeted frames: each becomes what `add`
/// makes of the x-value in the same row and of the intensity itself.
/// Without targets every frame is offset. A target that names no frame of
/// the dataset is refused with `OutOfRange`, the first such target being
/// reported, and nothing changes. X-values and the frames that are no
/// targets stay in any case.
pub fn offset_frames<F: Fn(u64, u64) -> u64>(dataset: &mut Dataset, target_frames: &Option<Vec<usize>>, add: F) -> (r:
    Result<(), Error>)
    requires
        forall|x: u64, y: u64| call_requires(add, (x, y)),
    ensures
        final(dataset).log() == old(dataset).log(),
        final(dataset).comments() == old(dataset).comments(),
        final(dataset).grid().height() == old(dataset).grid().height(),
        final(dataset).grid().width() == old(dataset).grid().width(),
        r is Ok <==> (target_frames is Some ==> all_in_bounds(old(dataset).frames(), target_frames->Some_0@)),
        r is Ok ==> intensities_mapped(&old(dataset).grid(), &final(dataset).grid(), *target_frames, add),
        r is Err ==> final(dataset).grid() == old(dataset).grid() && r->Err_0 == (Error::OutOfRange {
            frame: target_frames->Some_0@[first_out_of_bounds(old(dataset).frames(), target_frames->Some_0@)],
        }),
{
    match target_frames {
        Some(list) => {
            match dataset.verify_frames_in_bounds(list.as_slice()) {
                Ok(()) => {},
                Err(e) => {
                    return Err(e);
                },
            }
        },
        None => {},
    }
    dataset.map_intensities(target_frames, add);
    Ok(())
}

/// Offsets the intensities of the targeted frames, each frame by an amount
/// of its own: `amount` is given the x-values and the intensities of a
/// frame and returns the amount; each intensity of the frame then becomes
/// what `add` makes of it and of the amount. Without targets every frame is
/// offset.
///
/// A target that names no frame of the dataset is refused with
/// `OutOfRange`, the first such target being reported, and nothing changes.
/// When `amount` fails for a frame, offsetting ends with its error; the
/// frames before that one stay offset.
pub fn offset_frames_by<Q: Fn(&Vec<u64>, &Vec<u64>) -> Result<u64, Error>, A: Fn(u64, u64) -> u64>(
    dataset: &mut Dataset,
    target_frames: &Option<Vec<usize>>,
    amount: &Q,
    add: &A,
) -> (r: Result<(), Error>)
    requires
        forall|xs: &Vec<u64>, ys: &Vec<u64>| call_requires(*amount, (xs, ys)),
        forall|y: u64, v: u64| call_requires(*add, (y, v)),
    ensures
        final(dataset).log() == old(dataset).log(),
        final(dataset).comments() == old(dataset).comments(),
        if target_frames is Some && !all_in_bounds(old(dataset).frames(), target_frames->Some_0@) {
            &&& final(dataset).grid() == old(dataset).grid()
            &&& r == Err::<(), Error>(
                Error::OutOfRange {
                    frame: target_frames->Some_0@[first_out_of_bounds(old(dataset).frames(), target_frames->Some_0@)],
                },
            )
        } else {
            normalize_outcome(&old(dataset).grid(), &final(dataset).grid(), *target_frames, false, r, *amount, *add)
        },
{
    match target_frames {
        Some(list) => {
            match dataset.verify_frames_in_bounds(list.as_slice()) {
                Ok(()) => {},
                Err(e) => {
                    return Err(e);
                },
            }
        },
        None => {},
    }
    normalize(dataset, target_frames, false, amount, add)
}

/// Whether `after` is `before` with `offset` added to each intensity of the
/// targeted frames, and with every other sample untouched.
pub open spec fn offset_added<
    I: Fn(u64, u64, u64, u64, u64) -> u64,
    A: Fn(u64, u64, u64, u64) -> u64,
    P: Fn(u64, u64) -> u64,
    Q: Fn(u64) -> u64,
>(before: &Grid, after: &Grid, targets: Option<Vec<usize>>, offset: u64, ops: &Arithmetic<I, A, P, Q>) -> bool {
    forall|i: int, j: int|
        0 <= i < before.height() && 0 <= j < before.width() ==> #[trigger] after.at(i, j) == (if j % 2 == 1
            && crate::dataset::targeted(targets, j / 2) {
            ops.sum(before.at(i, j), offset)
        } else {
            before.at(i, j)
        })
}

/// Adds `offset` to each intensity of the targeted frames, and to each
/// intensity of every frame when there are no targets. A target that names
/// no frame of the dataset is refused with `OutOfRange`, the first such
/// target being reported, and nothing changes. X-values and the frames
/// that are no targets stay in any case.
pub fn add_offset<
    I: Fn(u64, u64, u64, u64, u64) -> u64,
    A: Fn(u64, u64, u64, u64) -> u64,
    P: Fn(u64, u64) -> u64,
    Q: Fn(u64) -> u64,
>(dataset: &mut Dataset, target_frames: &Option<Vec<usize>>, offset: u64, ops: &Arithmetic<I, A, P, Q>) -> (r: Result<
    (),
    Error,
>)
    requires
        ops.lawful(),
    ensures
        final(dataset).log() == old(dataset).log(),
        final(dataset).comments() == old(dataset).comments(),
        final(dataset).grid().height() == old(dataset).grid().height(),
        final(dataset).grid().width() == old(dataset).grid().width(),
        r is Ok <==> (target_frames is Some ==> all_in_bounds(old(dataset).frames(), target_frames->Some_0@)),
        r is Ok ==> offset_added(&old(dataset).grid(), &final(dataset).grid(), *target_frames, offset, ops),
        r is Err ==> final(dataset).grid() == old(dataset).grid() && r->Err_0 == (Error::OutOfRange {
            frame: target_frames->Some_0@[first_out_of_bounds(old(dataset).frames(), target_frames->Some_0@)],
        }),
{
    let add = |_x: u64, y: u64| -> (r: u64)
        ensures
            r == ops.sum(y, offset),
        { ops.plus(y, offset) };
    offset_frames(dataset, target_frames, add)
}

} // verus!
