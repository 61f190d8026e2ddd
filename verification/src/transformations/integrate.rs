use crate::common::Pair;
use crate::dataset::Dataset;
use crate::error::Error;
use crate::grid::{fits, shape_fits, Grid};
use crate::utils::Arithmetic;
use vstd::prelude::*;

verus! {

/// Whether `outcome` is what `integral` returned for the x-values and the
/// intensities of frame `frame` of `g` and for the bound number `bound`.
pub open spec fn integral_taken<I: Fn(&Vec<u64>, &Vec<u64>, usize) -> Result<u64, Error>>(
    g: &Grid,
    frame: int,
    bound: usize,
    outcome: Result<u64, Error>,
    integral: I,
) -> bool {
    exists|vx: Vec<u64>, vy: Vec<u64>|
        vx@ == g.column(2 * frame) && vy@ == g.column(2 * frame + 1) && #[trigger] call_ensures(
            integral,
            (&vx, &vy, bound),
            outcome,
        )
}

/// Whether `after` lists the integrals of the frames of `before`: one row
/// for each frame and two columns for each of the `bounds` bounds, the
/// first of which holds what `number` made of the 1-based number of the
/// frame, the second what `integral` gave for the frame and the bound.
pub open spec fn integrals_listed<I: Fn(&Vec<u64>, &Vec<u64>, usize) -> Result<u64, Error>, N: Fn(usize) -> u64>(
    before: &Grid,
    after: &Grid,
    bounds: usize,
    integral: I,
    number: N,
) -> bool {
    &&& after.height() == before.width() / 2
    &&& after.width() == 2 * bounds
    &&& forall|i: int, j: int|
        0 <= i < before.width() / 2 && 0 <= j < 2 * bounds ==> if j % 2 == 0 {
            call_ensures(number, ((i + 1) as usize,), #[trigger] after.at(i, j))
        } else {
            integral_taken(before, i, (j / 2) as usize, Ok(after.at(i, j)), integral)
        }
}

/// What [`integrate`] does: the list of integrals takes the place of the
/// matrix; or nothing changes, because the list cannot be held, or because
/// `integral` failed for a frame and a bound, with the error it gave.
pub open spec fn integrate_outcome<I: Fn(&Vec<u64>, &Vec<u64>, usize) -> Result<u64, Error>, N: Fn(usize) -> u64>(
    before: &Grid,
    after: &Grid,
    bounds: usize,
    r: Result<(), Error>,
    integral: I,
    number: N,
) -> bool {
    match r {
        Ok(()) => integrals_listed(before, after, bounds, integral, number),
        Err(e) => *after == *before && (if shape_fits(before.width() / 2, 2 * (bounds as nat)) {
            exists|i: int, j: int|
                0 <= i < before.width() / 2 && 0 <= j < bounds && #[trigger] integral_taken(
                    before,
                    i,
                    j as usize,
                    Err(e),
                    integral,
                )
        } else {
            e == Error::ShapeMismatch
        }),
    }
}

/// Puts a list of integrals in place of the matrix: one row for each frame
/// and two columns for each of the `bounds` bounds. `number` is given the
/// 1-based number of a frame and returns the sample that stands for it;
/// `integral` is given the x-values and the intensities of a frame and the
/// 0-based number of a bound and returns the integral.
///
/// When `integral` fails, integrating ends with its error and the dataset
/// stays as it was; so it does, with `ShapeMismatch`, when the list cannot
/// be held.
pub fn integrate<I: Fn(&Vec<u64>, &Vec<u64>, usize) -> Result<u64, Error>, N: Fn(usize) -> u64>(
    dataset: &mut Dataset,
    bounds: usize,
    integral: &I,
    number: &N,
) -> (r: Result<(), Error>)
    requires
        forall|xs: &Vec<u64>, ys: &Vec<u64>, bound: usize| call_requires(*integral, (xs, ys, bound)),
        forall|frame: usize| call_requires(*number, (frame,)),
    ensures
        final(dataset).log() == old(dataset).log(),
        final(dataset).comments() == old(dataset).comments(),
        r is Ok ==> final(dataset).wf(),
        integrate_outcome(&old(dataset).grid(), &final(dataset).grid(), bounds, r, *integral, *number),
{
    let n = dataset.frame_count();
    let ghost before = dataset.grid();
    if bounds > usize::MAX / 2 {
        proof {
            assert(!shape_fits(n as nat, 2 * (bounds as nat))) by (nonlinear_arith)
                requires
                    bounds > usize::MAX / 2,
            ;
        }
        return Err(Error::ShapeMismatch);
    }
    if !fits(n, 2 * bounds) {
        return Err(Error::ShapeMismatch);
    }
    let mut out = Grid::raw_filled(n, 2 * bounds, 0);
    let mut i: usize = 0;
    while i < n
        invariant
            i <= n,
            n == before.width() / 2,
            2 * n <= usize::MAX,
            2 * bounds <= usize::MAX,
            shape_fits(n as nat, 2 * (bounds as nat)),
            before == dataset.grid(),
            *dataset == *old(dataset),
            out.height() == n,
            out.width() == 2 * bounds,
            forall|xs: &Vec<u64>, ys: &Vec<u64>, bound: usize| call_requires(*integral, (xs, ys, bound)),
            forall|frame: usize| call_requires(*number, (frame,)),
            forall|a: int, j: int|
                0 <= a < i && 0 <= j < 2 * bounds ==> if j % 2 == 0 {
                    call_ensures(*number, ((a + 1) as usize,), #[trigger] out.at(a, j))
                } else {
                    integral_taken(&before, a, (j / 2) as usize, Ok(out.at(a, j)), *integral)
                },
        decreases n - i,
    {
        let xs = dataset.data().column_at(2 * i);
        let ys = dataset.data().column_at(2 * i + 1);
        let mut b: usize = 0;
        while b < bounds
            invariant
                b <= bounds,
                i < n,
                n == before.width() / 2,
                2 * n <= usize::MAX,
                2 * bounds <= usize::MAX,
                shape_fits(n as nat, 2 * (bounds as nat)),
                before == dataset.grid(),
                *dataset == *old(dataset),
                out.height() == n,
                out.width() == 2 * bounds,
                xs@ == before.column(2 * i as int),
                ys@ == before.column(2 * i + 1),
                forall|xs: &Vec<u64>, ys: &Vec<u64>, bound: usize| call_requires(*integral, (xs, ys, bound)),
                forall|frame: usize| call_requires(*number, (frame,)),
                forall|a: int, j: int|
                    0 <= a < n && 0 <= j < 2 * bounds && (a < i || (a == i && j < 2 * b)) ==> if j % 2 == 0 {
                        call_ensures(*number, ((a + 1) as usize,), #[trigger] out.at(a, j))
                    } else {
                        integral_taken(&before, a, (j / 2) as usize, Ok(out.at(a, j)), *integral)
                    },
            decreases bounds - b,
        {
            let name = number(i + 1);
            let area = match integral(&xs, &ys, b) {
                Ok(v) => v,
                Err(e) => {
                    proof {
                        assert(call_ensures(*integral, (&xs, &ys, b), Err::<u64, Error>(e)));
                        assert(integral_taken(&before, i as int, b, Err(e), *integral));
                        let j = b as int;
                        assert(j as usize == b);
                        assert(integral_taken(&before, i as int, j as usize, Err(e), *integral));
                    }
                    return Err(e);
                },
            };
            proof {
                assert(call_ensures(*integral, (&xs, &ys, b), Ok::<u64, Error>(area)));
                assert(integral_taken(&before, i as int, b, Ok(area), *integral));
                assert((2 * b) / 2 == b && (2 * b) % 2 == 0);
                assert((2 * b + 1) / 2 == b && (2 * b + 1) % 2 == 1);
            }
            out.put(i, 2 * b, name);
            out.put(i, 2 * b + 1, area);
            b += 1;
        }
        i += 1;
    }
    dataset.replace_grid(out);
    Ok(())
}

/// Whether `after` lists, for each frame of `before` and each window, the
/// number of the frame as `number` gives it and the integral of the frame
/// over the window.
pub open spec fn windows_listed<
    I: Fn(u64, u64, u64, u64, u64) -> u64,
    A: Fn(u64, u64, u64, u64) -> u64,
    P: Fn(u64, u64) -> u64,
    Q: Fn(u64) -> u64,
    N: Fn(usize) -> u64,
>(
    before: &Grid,
    after: &Grid,
    windows: Seq<Pair<u64>>,
    local_baseline: bool,
    ops: &Arithmetic<I, A, P, Q>,
    number: N,
) -> bool {
    &&& after.height() == before.width() / 2
    &&& after.width() == 2 * windows.len()
    &&& forall|i: int, j: int|
        0 <= i < before.width() / 2 && 0 <= j < 2 * windows.len() ==> if j % 2 == 0 {
            call_ensures(number, ((i + 1) as usize,), #[trigger] after.at(i, j))
        } else {
            ops.integral(
                before.column(2 * i),
                before.column(2 * i + 1),
                windows[j / 2].a,
                windows[j / 2].b,
                local_baseline,
            ) == Ok::<u64, Error>(after.at(i, j))
        }
}

/// Puts a list of integrals in place of the matrix: one row for each frame,
/// and for each window two columns, of which the first holds the number of
/// the frame as `number` gives it, the second the integral of the frame
/// over the window between `a` and `b`, see [`Arithmetic::integral`].
///
/// When a frame has no integral over a window, integrating ends with the
/// error that says why, and the dataset stays as it was; so it does, with
/// `ShapeMismatch`, when the list cannot be held.
pub fn integrate_windows<
    I: Fn(u64, u64, u64, u64, u64) -> u64,
    A: Fn(u64, u64, u64, u64) -> u64,
    P: Fn(u64, u64) -> u64,
    Q: Fn(u64) -> u64,
    N: Fn(usize) -> u64,
>(
    dataset: &mut Dataset,
    windows: &Vec<Pair<u64>>,
    local_baseline: bool,
    ops: &Arithmetic<I, A, P, Q>,
    number: &N,
) -> (r: Result<(), Error>)
    requires
        ops.lawful(),
        forall|frame: usize| call_requires(*number, (frame,)),
    ensures
        final(dataset).log() == old(dataset).log(),
        final(dataset).comments() == old(dataset).comments(),
        r is Ok ==> final(dataset).wf() && windows_listed(
            &old(dataset).grid(),
            &final(dataset).grid(),
            windows@,
            local_baseline,
            ops,
            *number,
        ),
        r is Err ==> final(dataset).grid() == old(dataset).grid() && (if shape_fits(
            old(dataset).frames(),
            2 * (windows.len() as nat),
        ) {
            exists|i: int, j: int|
                0 <= i < old(dataset).frames() && 0 <= j < windows.len() && #[trigger] ops.integral(
                    old(dataset).grid().column(2 * i),
                    old(dataset).grid().column(2 * i + 1),
                    windows[j].a,
                    windows[j].b,
                    local_baseline,
                ) == Err::<u64, Error>(r->Err_0)
        } else {
            r->Err_0 == Error::ShapeMismatch
        }),
{
    let ghost before = dataset.grid();
    let integral = |xs: &Vec<u64>, ys: &Vec<u64>, window: usize| -> (area: Result<u64, Error>)
        ensures
            area == (if window < windows.len() {
                ops.integral(xs@, ys@, windows[window as int].a, windows[window as int].b, local_baseline)
            } else {
                Err::<u64, Error>(Error::DomainError)
            }),
        {
            if window < windows.len() {
                ops.trapz(xs, ys, windows[window].a, windows[window].b, local_baseline)
            } else {
                Err(Error::DomainError)
            }
        };
    let r = integrate(dataset, windows.len(), &integral, number);
    proof {
        let after = dataset.grid();
        match r {
            Ok(()) => {
                assert forall|i: int, j: int| 0 <= i < before.width() / 2 && 0 <= j < 2 * windows.len() && j % 2
                    == 1 implies ops.integral(
                    before.column(2 * i),
                    before.column(2 * i + 1),
                    windows[j / 2].a,
                    windows[j / 2].b,
                    local_baseline,
                ) == Ok::<u64, Error>(#[trigger] after.at(i, j)) by {
                    assert(integral_taken(&before, i, (j / 2) as usize, Ok(after.at(i, j)), integral));
                }
            },
            Err(e) => {
                if shape_fits(before.width() / 2, 2 * (windows.len() as nat)) {
                    let (i, j) = choose|i: int, j: int|
                        0 <= i < before.width() / 2 && 0 <= j < windows.len() && #[trigger] integral_taken(
                            &before,
                            i,
                            j as usize,
                            Err(e),
                            integral,
                        );
                    assert(ops.integral(
                        before.column(2 * i),
                        before.column(2 * i + 1),
                        windows[j].a,
                        windows[j].b,
                        local_baseline,
                    ) == Err::<u64, Error>(e));
                }
            },
        }
    }
    r
}

} // verus!
