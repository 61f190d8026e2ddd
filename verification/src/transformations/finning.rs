use crate::dataset::Dataset;
use crate::error::Error;
use crate::grid::{shape_fits, Grid};
use crate::transformations::average::row_intensities;
use crate::utils::{is_nan, less, sample_is_nan, sample_lt};
use vstd::prelude::*;

verus! {

/// Row `i` of `g`, left to right.
pub open spec fn grid_row(g: &Grid, i: int) -> Seq<u64> {
    Seq::new(g.width(), |k: int| g.at(i, k))
}

/// Whether `outcome` is what `clip` returned for the intensities in row `i`
/// of all frames of `before`, in frame order.
pub open spec fn clip_taken<C: Fn(&Vec<u64>) -> Result<Vec<u64>, Error>>(
    before: &Grid,
    i: int,
    outcome: Result<Vec<u64>, Error>,
    clip: C,
) -> bool {
    exists|v: Vec<u64>| v@ == row_intensities(before, i, before.width() / 2) && #[trigger] call_ensures(clip, (&v,), outcome)
}

/// Whether row `i` of the matrix `clipped` of intensities is what `clip`
/// made of the intensities in row `i` of all frames of `before`.
pub open spec fn row_clipped<C: Fn(&Vec<u64>) -> Result<Vec<u64>, Error>>(before: &Grid, clipped: &Grid, i: int, clip: C) -> bool {
    exists|o: Vec<u64>| o@ == grid_row(clipped, i) && #[trigger] clip_taken(before, i, Ok(o), clip)
}

/// Whether the intensities in row `i` of `after` are what `clip` made of
/// those in row `i` of `before`, both taken in frame order.
pub open spec fn intensities_clipped<C: Fn(&Vec<u64>) -> Result<Vec<u64>, Error>>(before: &Grid, after: &Grid, i: int, clip: C) -> bool {
    exists|o: Vec<u64>| o@ == row_intensities(after, i, before.width() / 2) && #[trigger] clip_taken(before, i, Ok(o), clip)
}

/// Whether clipping row `i` of `g` failed with `e`: `clip` returned that
/// error, or, for `ShapeMismatch`, it returned more or fewer intensities
/// than it was given.
pub open spec fn clip_failed<C: Fn(&Vec<u64>) -> Result<Vec<u64>, Error>>(g: &Grid, i: int, e: Error, clip: C) -> bool {
    ||| clip_taken(g, i, Err(e), clip)
    ||| e == Error::ShapeMismatch && exists|o: Vec<u64>| #[trigger] clip_taken(g, i, Ok(o), clip) && o.len() != g.width() / 2
}

/// Whether clipping some row of `g` failed with `e`.
pub open spec fn rows_failed<C: Fn(&Vec<u64>) -> Result<Vec<u64>, Error>>(g: &Grid, e: Error, clip: C) -> bool {
    exists|i: int| 0 <= i < g.height() && #[trigger] clip_failed(g, i, e, clip)
}

/// What holds of a row keeps holding while the row stays.
proof fn lemma_row_clipped_stays<C: Fn(&Vec<u64>) -> Result<Vec<u64>, Error>>(
    before: &Grid,
    earlier: &Grid,
    later: &Grid,
    i: int,
    clip: C,
)
    requires
        row_clipped(before, earlier, i, clip),
        later.width() == earlier.width(),
        forall|k: int| 0 <= k < earlier.width() ==> #[trigger] later.at(i, k) == earlier.at(i, k),
    ensures
        row_clipped(before, later, i, clip),
{
    let o = choose|o: Vec<u64>| o@ == grid_row(earlier, i) && #[trigger] clip_taken(before, i, Ok(o), clip);
    assert(grid_row(later, i) =~= grid_row(earlier, i));
    assert(o@ == grid_row(later, i) && clip_taken(before, i, Ok(o), clip));
}

/// Clips spikes across the frames, row by row: `clip` is given the
/// intensities of a row in frame order and returns what takes their place.
/// X-values and texts stay.
///
/// A dataset of fewer than three frames is refused with
/// `InsufficientData`. When `clip` fails for a row, clipping ends with its
/// error, and when it returns more or fewer intensities than it was given,
/// with `ShapeMismatch`. Whenever the result is an error the dataset stays
/// as it was.
pub fn clip_rows<C: Fn(&Vec<u64>) -> Result<Vec<u64>, Error>>(dataset: &mut Dataset, clip: &C) -> (r: Result<(), Error>)
    requires
        old(dataset).wf(),
        forall|v: &Vec<u64>| v.len() >= 3 ==> call_requires(*clip, (v,)),
    ensures
        final(dataset).wf(),
        final(dataset).log() == old(dataset).log(),
        final(dataset).comments() == old(dataset).comments(),
        final(dataset).grid().height() == old(dataset).grid().height(),
        final(dataset).grid().width() == old(dataset).grid().width(),
        old(dataset).frames() < 3 ==> r == Err::<(), Error>(Error::InsufficientData),
        r is Err ==> final(dataset).grid() == old(dataset).grid(),
        r is Err && old(dataset).frames() >= 3 ==> rows_failed(&old(dataset).grid(), r->Err_0, *clip),
        r is Ok ==> {
            &&& forall|i: int, j: int|
                0 <= i < old(dataset).grid().height() && 0 <= j < old(dataset).grid().width() && j % 2 == 0
                    ==> #[trigger] final(dataset).grid().at(i, j) == old(dataset).grid().at(i, j)
            &&& forall|i: int|
                0 <= i < old(dataset).grid().height() ==> #[trigger] intensities_clipped(
                    &old(dataset).grid(),
                    &final(dataset).grid(),
                    i,
                    *clip,
                )
        },
{
    let n = dataset.frame_count();
    if n < 3 {
        return Err(Error::InsufficientData);
    }
    let h = dataset.rows();
    let ghost before = dataset.grid();
    let mut clipped = dataset.intensities();
    let ghost taken = clipped;
    let mut i: usize = 0;
    while i < h
        invariant
            i <= h,
            n >= 3,
            n == before.width() / 2,
            before.width() == 2 * n,
            h == before.height(),
            before == dataset.grid(),
            *dataset == *old(dataset),
            old(dataset).wf(),
            clipped.height() == h,
            clipped.width() == n,
            taken.height() == h,
            taken.width() == n,
            forall|v: &Vec<u64>| v.len() >= 3 ==> call_requires(*clip, (v,)),
            forall|a: int, k: int| 0 <= a < h && 0 <= k < n ==> #[trigger] taken.at(a, k) == before.at(a, 2 * k + 1),
            forall|a: int, k: int| i <= a < h && 0 <= k < n ==> #[trigger] clipped.at(a, k) == taken.at(a, k),
            forall|a: int| 0 <= a < i ==> #[trigger] row_clipped(&before, &clipped, a, *clip),
        decreases h - i,
    {
        let mut values: Vec<u64> = Vec::new();
        let mut k: usize = 0;
        while k < n
            invariant
                k <= n,
                i < h,
                clipped.height() == h,
                clipped.width() == n,
                values.len() == k,
                forall|a: int, b: int| 0 <= a < h && 0 <= b < n ==> #[trigger] taken.at(a, b) == before.at(a, 2 * b + 1),
                forall|a: int, b: int| i <= a < h && 0 <= b < n ==> #[trigger] clipped.at(a, b) == taken.at(a, b),
                forall|j: int| 0 <= j < k ==> #[trigger] values[j] == before.at(i as int, 2 * j + 1),
            decreases n - k,
        {
            values.push(clipped.raw_get(i, k));
            k += 1;
        }
        proof {
            assert(values@ =~= row_intensities(&before, i as int, n as nat));
        }
        let kept = match clip(&values) {
            Ok(kept) => kept,
            Err(e) => {
                proof {
                    assert(call_ensures(*clip, (&values,), Err::<Vec<u64>, Error>(e)));
                    assert(clip_taken(&before, i as int, Err(e), *clip));
                    assert(clip_failed(&before, i as int, e, *clip));
                    assert(clip_failed(&old(dataset).grid(), i as int, e, *clip));
                }
                return Err(e);
            },
        };
        proof {
            assert(call_ensures(*clip, (&values,), Ok::<Vec<u64>, Error>(kept)));
            assert(clip_taken(&before, i as int, Ok(kept), *clip));
        }
        if kept.len() != n {
            proof {
                assert(clip_failed(&before, i as int, Error::ShapeMismatch, *clip));
                assert(clip_failed(&old(dataset).grid(), i as int, Error::ShapeMismatch, *clip));
            }
            return Err(Error::ShapeMismatch);
        }
        let ghost entry = clipped;
        let mut k: usize = 0;
        while k < n
            invariant
                k <= n,
                i < h,
                kept.len() == n,
                clipped.height() == h,
                clipped.width() == n,
                entry.height() == h,
                entry.width() == n,
                forall|a: int, b: int|
                    0 <= a < h && 0 <= b < n && !(a == i && b < k) ==> #[trigger] clipped.at(a, b) == entry.at(a, b),
                forall|b: int| 0 <= b < k ==> #[trigger] clipped.at(i as int, b) == kept[b],
            decreases n - k,
        {
            clipped.put(i, k, kept[k]);
            k += 1;
        }
        proof {
            assert(kept@ =~= grid_row(&clipped, i as int));
            assert(kept@ == grid_row(&clipped, i as int) && clip_taken(&before, i as int, Ok(kept), *clip));
            assert(row_clipped(&before, &clipped, i as int, *clip));
            assert forall|a: int| 0 <= a < i implies #[trigger] row_clipped(&before, &clipped, a, *clip) by {
                assert(row_clipped(&before, &entry, a, *clip));
                lemma_row_clipped_stays(&before, &entry, &clipped, a, *clip);
            }
        }
        i += 1;
    }
    match dataset.set_intensities(&clipped) {
        Ok(()) => {},
        Err(_) => {
            proof {
                assert(false);
            }
            return Err(Error::ShapeMismatch);
        },
    }
    proof {
        let after = dataset.grid();
        assert forall|a: int| 0 <= a < h implies #[trigger] intensities_clipped(&before, &after, a, *clip) by {
            assert(row_clipped(&before, &clipped, a, *clip));
            let o = choose|o: Vec<u64>| o@ == grid_row(&clipped, a) && #[trigger] clip_taken(&before, a, Ok(o), *clip);
            assert forall|k: int| 0 <= k < n implies #[trigger] after.at(a, 2 * k + 1) == clipped.at(a, k) by {
                assert((2 * k + 1) % 2 == 1 && (2 * k + 1) / 2 == k);
            }
            assert(row_intensities(&after, a, n as nat) =~= grid_row(&clipped, a));
            assert(o@ == row_intensities(&after, a, before.width() / 2) && clip_taken(&before, a, Ok(o), *clip));
        }
    }
    Ok(())
}

/// The position of the largest of the first `upto` samples of `row`, and
/// of the first of them if several are the largest; `None` if one of the
/// samples is no number, or if there are no samples.
pub open spec fn largest(row: Seq<u64>, upto: int) -> Option<int>
    decreases upto,
{
    if upto <= 0 || upto > row.len() {
        None
    } else if upto == 1 {
        if is_nan(row[0]) {
            None
        } else {
            Some(0)
        }
    } else {
        match largest(row, upto - 1) {
            None => None,
            Some(best) => if is_nan(row[upto - 1]) {
                None
            } else if less(row[best], row[upto - 1]) {
                Some(upto - 1)
            } else {
                Some(best)
            },
        }
    }
}

/// Finds the largest sample, see [`largest`].
pub fn argmax(row: &Vec<u64>) -> (r: Option<usize>)
    ensures
        match r {
            Some(i) => largest(row@, row.len() as int) == Some(i as int) && i < row.len(),
            None => largest(row@, row.len() as int) == None::<int>,
        },
{
    if row.len() == 0 || sample_is_nan(row[0]) {
        proof {
            if row.len() > 0 {
                lemma_largest_fails(row@, 1, row.len() as int);
            }
        }
        return None;
    }
    let mut best: usize = 0;
    let mut i: usize = 1;
    while i < row.len()
        invariant
            1 <= i <= row.len(),
            best < i,
            largest(row@, i as int) == Some(best as int),
        decreases row.len() - i,
    {
        if sample_is_nan(row[i]) {
            proof {
                lemma_largest_fails(row@, i + 1, row.len() as int);
            }
            return None;
        }
        if sample_lt(row[best], row[i]) {
            best = i;
        }
        i += 1;
    }
    Some(best)
}

/// Once no largest sample is found, none is found among more samples.
proof fn lemma_largest_fails(row: Seq<u64>, at: int, upto: int)
    requires
        1 <= at <= upto <= row.len(),
        largest(row, at) is None,
    ensures
        largest(row, upto) is None,
    decreases upto - at,
{
    if at < upto {
        lemma_largest_fails(row, at, upto - 1);
    }
}

/// Whether `level` takes any row and always gives the same result for the
/// same row.
pub open spec fn lawful_level<L: Fn(&Vec<u64>) -> Result<(u64, u64), Error>>(level: L) -> bool {
    &&& forall|row: &Vec<u64>| call_requires(level, (row,))
    &&& forall|row: &Vec<u64>, other: &Vec<u64>, r: Result<(u64, u64), Error>, s: Result<(u64, u64), Error>|
        row@ == other@ && call_ensures(level, (row,), r) && call_ensures(level, (other,), s) ==> r == s
}

/// Whether `r` is what `level` returned for a row that holds the samples
/// `row`.
pub open spec fn level_gives<L: Fn(&Vec<u64>) -> Result<(u64, u64), Error>>(
    row: Seq<u64>,
    r: Result<(u64, u64), Error>,
    level: L,
) -> bool {
    exists|v: Vec<u64>| v@ == row && #[trigger] call_ensures(level, (&v,), r)
}

/// What `level` gives for a row.
pub open spec fn level_of<L: Fn(&Vec<u64>) -> Result<(u64, u64), Error>>(row: Seq<u64>, level: L) -> Result<(u64, u64), Error> {
    choose|r: Result<(u64, u64), Error>| #[trigger] level_gives(row, r, level)
}

/// The row after its spikes were clipped, when `done` samples have been
/// clipped already: `level` gives the median of the row and the limit
/// above which a sample is a spike; while the largest sample lies above
/// the limit it is replaced by the median, and median and limit are taken
/// anew. This ends after a replacement when more than `cap` samples have
/// been replaced. A row with a sample that is no number has no largest
/// sample, which is a `DomainError`.
pub open spec fn clipped_row<L: Fn(&Vec<u64>) -> Result<(u64, u64), Error>>(row: Seq<u64>, done: int, cap: int, level: L) -> Result<
    Seq<u64>,
    Error,
>
    decreases cap + 1 - done,
{
    match level_of(row, level) {
        Err(e) => Err(e),
        Ok((median, limit)) => match largest(row, row.len() as int) {
            None => Err(Error::DomainError),
            Some(n) => if done > cap || !less(limit, row[n]) {
                Ok(row)
            } else {
                clipped_row(row.update(n, median), done + 1, cap, level)
            },
        },
    }
}

/// Clips the spikes of a row, see [`clipped_row`].
pub fn clip_row<L: Fn(&Vec<u64>) -> Result<(u64, u64), Error>>(row: &Vec<u64>, cap: usize, level: &L) -> (r: Result<
    Vec<u64>,
    Error,
>)
    requires
        lawful_level(*level),
    ensures
        match r {
            Ok(v) => clipped_row(row@, 0, cap as int, *level) == Ok::<Seq<u64>, Error>(v@) && v.len() == row.len(),
            Err(e) => clipped_row(row@, 0, cap as int, *level) == Err::<Seq<u64>, Error>(e),
        },
{
    let mut current: Vec<u64> = row.clone();
    let mut done: u128 = 0;
    loop
        invariant
            lawful_level(*level),
            done <= cap + 1,
            current.len() == row.len(),
            clipped_row(row@, 0, cap as int, *level) == clipped_row(current@, done as int, cap as int, *level),
        decreases cap + 2 - done,
    {
        let (median, limit) = match level(&current) {
            Ok(pair) => pair,
            Err(e) => {
                proof {
                    assert(call_ensures(*level, (&current,), Err::<(u64, u64), Error>(e)));
                    lemma_level_of(&current, Err(e), *level);
                }
                return Err(e);
            },
        };
        proof {
            assert(call_ensures(*level, (&current,), Ok::<(u64, u64), Error>((median, limit))));
            lemma_level_of(&current, Ok((median, limit)), *level);
        }
        let n = match argmax(&current) {
            Some(n) => n,
            None => {
                return Err(Error::DomainError);
            },
        };
        if done > cap as u128 || !sample_lt(limit, current[n]) {
            return Ok(current);
        }
        current.set(n, median);
        done += 1;
    }
}

/// What `level` returned for a row is what [`level_of`] names.
proof fn lemma_level_of<L: Fn(&Vec<u64>) -> Result<(u64, u64), Error>>(row: &Vec<u64>, r: Result<(u64, u64), Error>, level: L)
    requires
        lawful_level(level),
        call_ensures(level, (row,), r),
    ensures
        level_of(row@, level) == r,
{
    let s = level_of(row@, level);
    assert(level_gives(row@, r, level));
    assert(level_gives(row@, s, level));
    let v = choose|v: Vec<u64>| v@ == row@ && #[trigger] call_ensures(level, (&v,), s);
    assert(r == s);
}

/// Whether row `i` of `after` holds the intensities of row `i` of `before`
/// with the spikes clipped, see [`clipped_row`].
pub open spec fn spikes_clipped<L: Fn(&Vec<u64>) -> Result<(u64, u64), Error>>(
    before: &Grid,
    after: &Grid,
    i: int,
    cap: int,
    level: L,
) -> bool {
    clipped_row(row_intensities(before, i, before.width() / 2), 0, cap, level) == Ok::<Seq<u64>, Error>(
        row_intensities(after, i, before.width() / 2),
    )
}

/// Clips spikes across the frames, row by row: while the largest intensity
/// of a row lies above the limit that `level` gives for the row, it is
/// replaced by the median that `level` gives, at most `cap + 1` times; see
/// [`clipped_row`]. X-values and texts stay.
///
/// A dataset of fewer than three frames is refused with
/// `InsufficientData`. When a row cannot be clipped, clipping ends with
/// the error that says why. Whenever the result is an error the dataset
/// stays as it was.
pub fn finning<L: Fn(&Vec<u64>) -> Result<(u64, u64), Error>>(dataset: &mut Dataset, cap: usize, level: &L) -> (r: Result<
    (),
    Error,
>)
    requires
        old(dataset).wf(),
        lawful_level(*level),
    ensures
        final(dataset).wf(),
        final(dataset).log() == old(dataset).log(),
        final(dataset).comments() == old(dataset).comments(),
        final(dataset).grid().height() == old(dataset).grid().height(),
        final(dataset).grid().width() == old(dataset).grid().width(),
        old(dataset).frames() < 3 ==> r == Err::<(), Error>(Error::InsufficientData),
        r is Err ==> final(dataset).grid() == old(dataset).grid(),
        r is Err && old(dataset).frames() >= 3 ==> exists|i: int|
            0 <= i < old(dataset).pixels() && #[trigger] clipped_row(
                row_intensities(&old(dataset).grid(), i, old(dataset).frames()),
                0,
                cap as int,
                *level,
            ) == Err::<Seq<u64>, Error>(r->Err_0),
        r is Ok ==> {
            &&& forall|i: int, j: int|
                0 <= i < old(dataset).grid().height() && 0 <= j < old(dataset).grid().width() && j % 2 == 0
                    ==> #[trigger] final(dataset).grid().at(i, j) == old(dataset).grid().at(i, j)
            &&& forall|i: int|
                0 <= i < old(dataset).grid().height() ==> #[trigger] spikes_clipped(
                    &old(dataset).grid(),
                    &final(dataset).grid(),
                    i,
                    cap as int,
                    *level,
                )
        },
{
    let ghost before = dataset.grid();
    let clip = |row: &Vec<u64>| -> (o: Result<Vec<u64>, Error>)
        ensures
            match o {
                Ok(v) => clipped_row(row@, 0, cap as int, *level) == Ok::<Seq<u64>, Error>(v@) && v.len() == row.len(),
                Err(e) => clipped_row(row@, 0, cap as int, *level) == Err::<Seq<u64>, Error>(e),
            },
        { clip_row(row, cap, level) };
    let r = clip_rows(dataset, &clip);
    proof {
        let after = dataset.grid();
        let n = before.width() / 2;
        match r {
            Ok(()) => {
                assert forall|i: int| 0 <= i < before.height() implies #[trigger] spikes_clipped(
                    &before,
                    &after,
                    i,
                    cap as int,
                    *level,
                ) by {
                    assert(intensities_clipped(&before, &after, i, clip));
                    let o = choose|o: Vec<u64>| o@ == row_intensities(&after, i, n) && #[trigger] clip_taken(&before, i, Ok(o), clip);
                    let v = choose|v: Vec<u64>| v@ == row_intensities(&before, i, n) && #[trigger] call_ensures(
                        clip,
                        (&v,),
                        Ok::<Vec<u64>, Error>(o),
                    );
                }
            },
            Err(e) => {
                if n >= 3 {
                    assert(rows_failed(&before, e, clip));
                    let i = choose|i: int| 0 <= i < before.height() && #[trigger] clip_failed(&before, i, e, clip);
                    if clip_taken(&before, i, Err(e), clip) {
                        let v = choose|v: Vec<u64>| v@ == row_intensities(&before, i, n) && #[trigger] call_ensures(
                            clip,
                            (&v,),
                            Err::<Vec<u64>, Error>(e),
                        );
                    } else {
                        let o = choose|o: Vec<u64>| #[trigger] clip_taken(&before, i, Ok(o), clip) && o.len() != n;
                        let v = choose|v: Vec<u64>| v@ == row_intensities(&before, i, n) && #[trigger] call_ensures(
                            clip,
                            (&v,),
                            Ok::<Vec<u64>, Error>(o),
                        );
                        assert(o.len() == v.len());
                        assert(false);
                    }
                    assert(clipped_row(row_intensities(&before, i, n), 0, cap as int, *level) == Err::<Seq<u64>, Error>(e));
                }
            },
        }
    }
    r
}

} // verus!
