use crate::dataset::{targeted, Dataset};
use crate::error::Error;
use crate::grid::Grid;
use crate::utils::{closest, distances_from, lawful_distance, nearest_index, Arithmetic};
use vstd::prelude::*;

verus! {

/// Whether `outcome` is what `norm` returned for the x-values and the
/// intensities of frame `k` of `g`.
pub open spec fn norm_taken<N: Fn(&Vec<u64>, &Vec<u64>) -> Result<u64, Error>>(
    g: &Grid,
    k: int,
    outcome: Result<u64, Error>,
    norm: N,
) -> bool {
    exists|vx: Vec<u64>, vy: Vec<u64>|
        vx@ == g.column(2 * k) && vy@ == g.column(2 * k + 1) && #[trigger] call_ensures(norm, (&vx, &vy), outcome)
}

/// Whether the intensities of frame `k` are the same in `after` as in
/// `before`.
pub open spec fn intensities_kept(before: &Grid, after: &Grid, k: int) -> bool {
    forall|i: int| 0 <= i < before.height() ==> #[trigger] after.at(i, 2 * k + 1) == before.at(i, 2 * k + 1)
}

/// Whether each intensity of frame `k` of `after` is what `divide` made of
/// the intensity in `before` and of `value`.
pub open spec fn intensities_divided<D: Fn(u64, u64) -> u64>(before: &Grid, after: &Grid, k: int, value: u64, divide: D) -> bool {
    forall|i: int|
        0 <= i < before.height() ==> call_ensures(divide, (before.at(i, 2 * k + 1), value), #[trigger] after.at(i, 2 * k + 1))
}

/// Whether frame `k` of `after` is frame `k` of `before` normalized: a norm
/// was taken of the frame, and, unless `idle` is set, each intensity was
/// divided by it.
pub open spec fn frame_normalized<N: Fn(&Vec<u64>, &Vec<u64>) -> Result<u64, Error>, D: Fn(u64, u64) -> u64>(
    before: &Grid,
    after: &Grid,
    k: int,
    idle: bool,
    norm: N,
    divide: D,
) -> bool {
    exists|value: u64| #[trigger]
        norm_taken(before, k, Ok(value), norm) && (if idle {
            intensities_kept(before, after, k)
        } else {
            intensities_divided(before, after, k, value, divide)
        })
}

/// What holds of frame `k` once the targeted frames below number `m` are
/// normalized: it is normalized if it is one of these, else untouched.
pub open spec fn frame_settled<N: Fn(&Vec<u64>, &Vec<u64>) -> Result<u64, Error>, D: Fn(u64, u64) -> u64>(
    before: &Grid,
    after: &Grid,
    targets: Option<Vec<usize>>,
    k: int,
    m: int,
    idle: bool,
    norm: N,
    divide: D,
) -> bool {
    if targeted(targets, k) && k < m {
        frame_normalized(before, after, k, idle, norm, divide)
    } else {
        intensities_kept(before, after, k)
    }
}

/// Whether `after` is `before` with the targeted frames below number `m`
/// normalized and nothing else changed.
pub open spec fn normalized_upto<N: Fn(&Vec<u64>, &Vec<u64>) -> Result<u64, Error>, D: Fn(u64, u64) -> u64>(
    before: &Grid,
    after: &Grid,
    targets: Option<Vec<usize>>,
    m: int,
    idle: bool,
    norm: N,
    divide: D,
) -> bool {
    &&& after.height() == before.height()
    &&& after.width() == before.width()
    &&& forall|i: int, j: int|
        0 <= i < before.height() && 0 <= j < before.width() && j % 2 == 0 ==> #[trigger] after.at(i, j) == before.at(i, j)
    &&& forall|k: int|
        0 <= k < before.width() / 2 ==> #[trigger] frame_settled(before, after, targets, k, m, idle, norm, divide)
}

/// What [`normalize`] does: either every targeted frame is normalized, or
/// the norm of one targeted frame could not be taken, the error is the one
/// that `norm` gave for it, and the targeted frames before it are
/// normalized while the others are untouched.
pub open spec fn normalize_outcome<N: Fn(&Vec<u64>, &Vec<u64>) -> Result<u64, Error>, D: Fn(u64, u64) -> u64>(
    before: &Grid,
    after: &Grid,
    targets: Option<Vec<usize>>,
    idle: bool,
    r: Result<(), Error>,
    norm: N,
    divide: D,
) -> bool {
    match r {
        Ok(()) => normalized_upto(before, after, targets, before.width() as int / 2, idle, norm, divide),
        Err(e) => exists|m: int|
            0 <= m < before.width() / 2 && targeted(targets, m) && norm_taken(before, m, Err(e), norm)
                && #[trigger] normalized_upto(before, after, targets, m, idle, norm, divide),
    }
}

/// What holds of a frame keeps holding while its intensities stay.
proof fn lemma_frame_settled_stays<N: Fn(&Vec<u64>, &Vec<u64>) -> Result<u64, Error>, D: Fn(u64, u64) -> u64>(
    before: &Grid,
    earlier: &Grid,
    later: &Grid,
    targets: Option<Vec<usize>>,
    k: int,
    m: int,
    idle: bool,
    norm: N,
    divide: D,
)
    requires
        frame_settled(before, earlier, targets, k, m, idle, norm, divide),
        intensities_kept(earlier, later, k),
        earlier.height() == before.height(),
    ensures
        frame_settled(before, later, targets, k, m, idle, norm, divide),
{
    if targeted(targets, k) && k < m {
        let value = choose|value: u64| #[trigger]
            norm_taken(before, k, Ok(value), norm) && (if idle {
                intensities_kept(before, earlier, k)
            } else {
                intensities_divided(before, earlier, k, value, divide)
            });
        assert(norm_taken(before, k, Ok(value), norm) && (if idle {
            intensities_kept(before, later, k)
        } else {
            intensities_divided(before, later, k, value, divide)
        }));
    }
}

/// Normalizes the targeted frames, in dataset order: `norm` is given the
/// x-values and the intensities of a frame and returns the value to
/// normalize it to; each intensity of the frame then becomes what `divide`
/// makes of it and of that value. Without targets every frame is
/// normalized; targets that name no frame have no effect.
///
/// With `idle` set the norms are taken and the intensities are left as
/// they are.
///
/// When `norm` fails for a frame, normalizing ends with its error; the
/// frames before that one stay normalized.
pub fn normalize<N: Fn(&Vec<u64>, &Vec<u64>) -> Result<u64, Error>, D: Fn(u64, u64) -> u64>(
    dataset: &mut Dataset,
    targets: &Option<Vec<usize>>,
    idle: bool,
    norm: &N,
    divide: &D,
) -> (r: Result<(), Error>)
    requires
        forall|xs: &Vec<u64>, ys: &Vec<u64>| call_requires(*norm, (xs, ys)),
        forall|y: u64, v: u64| call_requires(*divide, (y, v)),
    ensures
        final(dataset).log() == old(dataset).log(),
        final(dataset).comments() == old(dataset).comments(),
        normalize_outcome(&old(dataset).grid(), &final(dataset).grid(), *targets, idle, r, *norm, *divide),
{
    let h = dataset.rows();
    let n = dataset.frame_count();
    let ghost before = dataset.grid();
    let mut k: usize = 0;
    while k < n
        invariant
            k <= n,
            n == before.width() / 2,
            2 * n <= usize::MAX,
            h == before.height(),
            before == old(dataset).grid(),
            dataset.log() == old(dataset).log(),
            dataset.comments() == old(dataset).comments(),
            forall|xs: &Vec<u64>, ys: &Vec<u64>| call_requires(*norm, (xs, ys)),
            forall|y: u64, v: u64| call_requires(*divide, (y, v)),
            normalized_upto(&before, &dataset.grid(), *targets, k as int, idle, *norm, *divide),
        decreases n - k,
    {
        let ghost entry = dataset.grid();
        proof {
            assert(frame_settled(&before, &entry, *targets, k as int, k as int, idle, *norm, *divide));
        }
        if Dataset::is_target(targets, k + 1) {
            let xs = dataset.data().column_at(2 * k);
            let ys = dataset.data().column_at(2 * k + 1);
            proof {
                assert(xs@ =~= before.column(2 * k as int));
                assert(ys@ =~= before.column(2 * k + 1));
            }
            let value = match norm(&xs, &ys) {
                Ok(value) => value,
                Err(e) => {
                    proof {
                        assert(call_ensures(*norm, (&xs, &ys), Err::<u64, Error>(e)));
                        assert(norm_taken(&before, k as int, Err(e), *norm));
                    }
                    return Err(e);
                },
            };
            proof {
                assert(call_ensures(*norm, (&xs, &ys), Ok::<u64, Error>(value)));
                assert(norm_taken(&before, k as int, Ok(value), *norm));
            }
            if !idle {
                let mut i: usize = 0;
                while i < h
                    invariant
                        i <= h,
                        k < n,
                        n == before.width() / 2,
                        2 * n <= usize::MAX,
                        h == before.height(),
                        dataset.log() == old(dataset).log(),
                        dataset.comments() == old(dataset).comments(),
                        dataset.grid().height() == before.height(),
                        dataset.grid().width() == before.width(),
                        entry.height() == before.height(),
                        entry.width() == before.width(),
                        forall|y: u64, v: u64| call_requires(*divide, (y, v)),
                        forall|a: int| 0 <= a < h ==> #[trigger] entry.at(a, 2 * k + 1) == before.at(a, 2 * k + 1),
                        forall|a: int, j: int|
                            0 <= a < h && 0 <= j < before.width() && !(a < i && j == 2 * k + 1) ==> #[trigger] dataset.grid().at(
                                a,
                                j,
                            ) == entry.at(a, j),
                        forall|a: int|
                            0 <= a < i ==> call_ensures(
                                *divide,
                                (before.at(a, 2 * k + 1), value),
                                #[trigger] dataset.grid().at(a, 2 * k + 1),
                            ),
                    decreases h - i,
                {
                    let y = dataset.data().raw_get(i, 2 * k + 1);
                    let v = divide(y, value);
                    dataset.put(i, 2 * k + 1, v);
                    i += 1;
                }
            }
            proof {
                let now = dataset.grid();
                assert(norm_taken(&before, k as int, Ok(value), *norm) && (if idle {
                    intensities_kept(&before, &now, k as int)
                } else {
                    intensities_divided(&before, &now, k as int, value, *divide)
                }));
                assert(frame_normalized(&before, &now, k as int, idle, *norm, *divide));
            }
        }
        proof {
            let now = dataset.grid();
            assert forall|q: int| 0 <= q < before.width() / 2 implies #[trigger] frame_settled(
                &before,
                &now,
                *targets,
                q,
                k + 1,
                idle,
                *norm,
                *divide,
            ) by {
                assert(frame_settled(&before, &entry, *targets, q, k as int, idle, *norm, *divide));
                if q != k {
                    assert(intensities_kept(&entry, &now, q)) by {
                        assert forall|i: int| 0 <= i < entry.height() implies #[trigger] now.at(i, 2 * q + 1) == entry.at(
                            i,
                            2 * q + 1,
                        ) by {}
                    }
                    lemma_frame_settled_stays(&before, &entry, &now, *targets, q, k as int, idle, *norm, *divide);
                }
            }
        }
        k += 1;
    }
    Ok(())
}

/// The value to which a frame with the x-values `xs` and the intensities
/// `ys` is normalized: the integral between `xi` and `xj`, or, where there
/// is no `xj`, the intensity at the x-value that is closest to `xi`.
/// Without an x-value whose distance from `xi` is a number there is no
/// such value, which is a `DomainError`.
pub open spec fn norm_value<
    I: Fn(u64, u64, u64, u64, u64) -> u64,
    A: Fn(u64, u64, u64, u64) -> u64,
    P: Fn(u64, u64) -> u64,
    Q: Fn(u64) -> u64,
    D: Fn(u64, u64) -> u64,
>(
    xs: Seq<u64>,
    ys: Seq<u64>,
    xi: u64,
    xj: Option<u64>,
    local_baseline: bool,
    ops: &Arithmetic<I, A, P, Q>,
    distance: D,
) -> Result<u64, Error> {
    match xj {
        Some(xj) => ops.integral(xs, ys, xi, xj, local_baseline),
        None => match closest(distances_from(xs, xi, distance), xs.len() as int) {
            Some(i) => if i < ys.len() {
                Ok(ys[i])
            } else {
                Err(Error::ShapeMismatch)
            },
            None => Err(Error::DomainError),
        },
    }
}

/// What holds of frame `k` once the targeted frames below number `m` are
/// normalized: if it is one of these, its norm `v` could be taken and,
/// unless `idle` is set, each of its intensities is what `divide` made of
/// it and of `v`; else it is untouched.
pub open spec fn frame_scaled<
    I: Fn(u64, u64, u64, u64, u64) -> u64,
    A: Fn(u64, u64, u64, u64) -> u64,
    P: Fn(u64, u64) -> u64,
    Q: Fn(u64) -> u64,
    D: Fn(u64, u64) -> u64,
    V: Fn(u64, u64) -> u64,
>(
    before: &Grid,
    after: &Grid,
    targets: Option<Vec<usize>>,
    k: int,
    m: int,
    idle: bool,
    xi: u64,
    xj: Option<u64>,
    local_baseline: bool,
    ops: &Arithmetic<I, A, P, Q>,
    distance: D,
    divide: V,
) -> bool {
    if targeted(targets, k) && k < m {
        match norm_value(before.column(2 * k), before.column(2 * k + 1), xi, xj, local_baseline, ops, distance) {
            Ok(v) => if idle {
                intensities_kept(before, after, k)
            } else {
                intensities_divided(before, after, k, v, divide)
            },
            Err(_) => false,
        }
    } else {
        intensities_kept(before, after, k)
    }
}

/// Whether `after` is `before` with the targeted frames below number `m`
/// normalized, see [`frame_scaled`], and nothing else changed.
pub open spec fn scaled_upto<
    I: Fn(u64, u64, u64, u64, u64) -> u64,
    A: Fn(u64, u64, u64, u64) -> u64,
    P: Fn(u64, u64) -> u64,
    Q: Fn(u64) -> u64,
    D: Fn(u64, u64) -> u64,
    V: Fn(u64, u64) -> u64,
>(
    before: &Grid,
    after: &Grid,
    targets: Option<Vec<usize>>,
    m: int,
    idle: bool,
    xi: u64,
    xj: Option<u64>,
    local_baseline: bool,
    ops: &Arithmetic<I, A, P, Q>,
    distance: D,
    divide: V,
) -> bool {
    &&& after.height() == before.height()
    &&& after.width() == before.width()
    &&& forall|i: int, j: int|
        0 <= i < before.height() && 0 <= j < before.width() && j % 2 == 0 ==> #[trigger] after.at(i, j) == before.at(i, j)
    &&& forall|k: int|
        0 <= k < before.width() / 2 ==> #[trigger] frame_scaled(
            before,
            after,
            targets,
            k,
            m,
            idle,
            xi,
            xj,
            local_baseline,
            ops,
            distance,
            divide,
        )
}

/// Normalizes the targeted frames, in dataset order, each to its own norm:
/// to its integral between `xi` and `xj`, with or without the local
/// baseline taken off, or, where there is no `xj`, to its intensity at the
/// x-value that is closest to `xi`. Each intensity of the frame becomes
/// what `divide` makes of it and of the norm. Without targets every frame
/// is normalized; targets that name no frame have no effect.
///
/// With `idle` set the norms are taken and the intensities are left as
/// they are.
///
/// When a frame has no norm, normalizing ends with the error that says
/// why; the frames before that one stay normalized.
pub fn normalize_to<
    I: Fn(u64, u64, u64, u64, u64) -> u64,
    A: Fn(u64, u64, u64, u64) -> u64,
    P: Fn(u64, u64) -> u64,
    Q: Fn(u64) -> u64,
    D: Fn(u64, u64) -> u64,
    V: Fn(u64, u64) -> u64,
>(
    dataset: &mut Dataset,
    xi: u64,
    xj: Option<u64>,
    local_baseline: bool,
    targets: &Option<Vec<usize>>,
    idle: bool,
    ops: &Arithmetic<I, A, P, Q>,
    distance: &D,
    divide: &V,
) -> (r: Result<(), Error>)
    requires
        ops.lawful(),
        lawful_distance(*distance),
        forall|y: u64, v: u64| call_requires(*divide, (y, v)),
    ensures
        final(dataset).log() == old(dataset).log(),
        final(dataset).comments() == old(dataset).comments(),
        r is Ok ==> scaled_upto(
            &old(dataset).grid(),
            &final(dataset).grid(),
            *targets,
            old(dataset).grid().width() as int / 2,
            idle,
            xi,
            xj,
            local_baseline,
            ops,
            *distance,
            *divide,
        ),
        r is Err ==> exists|m: int|
            0 <= m < old(dataset).grid().width() / 2 && targeted(*targets, m) && norm_value(
                old(dataset).grid().column(2 * m),
                old(dataset).grid().column(2 * m + 1),
                xi,
                xj,
                local_baseline,
                ops,
                *distance,
            ) == Err::<u64, Error>(r->Err_0) && #[trigger] scaled_upto(
                &old(dataset).grid(),
                &final(dataset).grid(),
                *targets,
                m,
                idle,
                xi,
                xj,
                local_baseline,
                ops,
                *distance,
                *divide,
            ),
{
    let ghost before = dataset.grid();
    let norm = |xs: &Vec<u64>, ys: &Vec<u64>| -> (v: Result<u64, Error>)
        ensures
            v == norm_value(xs@, ys@, xi, xj, local_baseline, ops, *distance),
        {
            match xj {
                Some(xj) => ops.trapz(xs, ys, xi, xj, local_baseline),
                None => match nearest_index(xs, xi, distance) {
                    Some(i) => if i < ys.len() {
                        Ok(ys[i])
                    } else {
                        Err(Error::ShapeMismatch)
                    },
                    None => Err(Error::DomainError),
                },
            }
        };
    let r = normalize(dataset, targets, idle, &norm, divide);
    proof {
        let after = dataset.grid();
        let frames = before.width() as int / 2;
        let m = match r {
            Ok(()) => frames,
            Err(e) => choose|m: int|
                0 <= m < before.width() / 2 && targeted(*targets, m) && norm_taken(&before, m, Err(e), norm)
                    && #[trigger] normalized_upto(&before, &after, *targets, m, idle, norm, *divide),
        };
        assert(normalized_upto(&before, &after, *targets, m, idle, norm, *divide));
        assert forall|k: int| 0 <= k < before.width() / 2 implies #[trigger] frame_scaled(
            &before,
            &after,
            *targets,
            k,
            m,
            idle,
            xi,
            xj,
            local_baseline,
            ops,
            *distance,
            *divide,
        ) by {
            assert(frame_settled(&before, &after, *targets, k, m, idle, norm, *divide));
            if targeted(*targets, k) && k < m {
                let value = choose|value: u64| #[trigger]
                    norm_taken(&before, k, Ok(value), norm) && (if idle {
                        intensities_kept(&before, &after, k)
                    } else {
                        intensities_divided(&before, &after, k, value, *divide)
                    });
                assert(norm_taken(&before, k, Ok(value), norm));
            }
        }
        assert(scaled_upto(&before, &after, *targets, m, idle, xi, xj, local_baseline, ops, *distance, *divide));
        if r is Err {
            assert(norm_taken(&before, m, Err(r->Err_0), norm));
        }
    }
    r
}

} // verus!
