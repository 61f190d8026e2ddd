use crate::dataset::Dataset;
use crate::error::Error;
use crate::grid::{fits, matrix, shape_fits, Grid};
use crate::utils::{less, sample_lt};
use vstd::arithmetic::div_mod::{lemma_fundamental_div_mod, lemma_fundamental_div_mod_converse};
use vstd::multiset::Multiset;
use vstd::prelude::*;
use vstd::relations::{sorted_by, total_ordering};
use vstd::seq_lib::{lemma_sorted_unique, to_multiset_update};

verus! {

/// Where a sample stands among all samples. Samples are bit patterns of
/// binary64 numbers; ordering them by this key orders the numbers they
/// stand for from the most negative to the most positive, with -0 directly
/// below +0.
pub open spec fn order_key(bits: u64) -> int {
    if bits < 0x8000_0000_0000_0000 {
        bits as int
    } else {
        0x7fff_ffff_ffff_ffff - (bits as int)
    }
}

/// The order on samples given by [`order_key`], as a relation.
pub open spec fn sample_order() -> spec_fn(u64, u64) -> bool {
    |a: u64, b: u64| order_key(a) <= order_key(b)
}

/// Different samples have different keys, so the order on samples is total.
pub proof fn lemma_sample_order_total()
    ensures
        total_ordering(sample_order()),
        forall|a: u64, b: u64| order_key(a) == order_key(b) ==> a == b,
{
    let r = sample_order();
    assert forall|x: u64, y: u64| #[trigger] r(x, y) && #[trigger] r(y, x) implies x == y by {}
    assert forall|x: u64, y: u64, z: u64| #[trigger] r(x, y) && #[trigger] r(y, z) implies r(x, z) by {}
    assert forall|x: u64, y: u64| #[trigger] r(x, y) || #[trigger] r(y, x) by {}
    assert forall|x: u64| #[trigger] r(x, x) by {}
}

/// Whether sample `a` comes before sample `b` in the order on samples, or is
/// the same sample.
pub fn in_order(a: u64, b: u64) -> (r: bool)
    ensures
        r == (order_key(a) <= order_key(b)),
{
    let top: u64 = 0x8000_0000_0000_0000;
    if a < top {
        if b < top { a <= b } else { false }
    } else {
        if b < top { true } else { b <= a }
    }
}

/// The index inside `0..n` that index `i` stands for when an axis of length
/// `n` is continued on both sides by its mirror image: `-1` stands for `0`,
/// `-2` for `1`, `n` for `n - 1`, `n + 1` for `n - 2`, and so on.
pub open spec fn mirror(i: int, n: int) -> int {
    let m = i % (2 * n);
    if m < n { m } else { 2 * n - 1 - m }
}

/// Mirroring keeps an index inside the axis, leaves indices of the axis
/// alone, and reflects about the gap in front of index 0.
pub proof fn lemma_mirror(i: int, n: int)
    requires
        n > 0,
    ensures
        0 <= mirror(i, n) < n,
        0 <= i < n ==> mirror(i, n) == i,
        mirror(-1 - i, n) == mirror(i, n),
        n <= i < 2 * n ==> mirror(i, n) == 2 * n - 1 - i,
{
    let m = i % (2 * n);
    let q = i / (2 * n);
    lemma_fundamental_div_mod(i, 2 * n);
    assert(0 <= m < 2 * n);
    assert(-1 - i == (2 * n) * (-q - 1) + (2 * n - 1 - m)) by (nonlinear_arith)
        requires
            i == (2 * n) * q + m,
    ;
    lemma_fundamental_div_mod_converse(-1 - i, 2 * n, -q - 1, 2 * n - 1 - m);
    if 0 <= i < 2 * n {
        lemma_fundamental_div_mod_converse(i, 2 * n, 0, i);
    }
}

/// Computes [`mirror`] for an axis of `num_elem` elements.
pub fn mirror_index(idx: i128, num_elem: usize) -> (r: usize)
    requires
        num_elem > 0,
    ensures
        r == mirror(idx as int, num_elem as int),
        r < num_elem,
{
    proof {
        lemma_mirror(idx as int, num_elem as int);
    }
    let j: u128 = if idx < 0 { (-1 - idx) as u128 } else { idx as u128 };
    let period: u128 = 2 * (num_elem as u128);
    let m: u128 = j % period;
    proof {
        lemma_mirror(j as int, num_elem as int);
    }
    if m < num_elem as u128 {
        m as usize
    } else {
        (period - 1 - m) as usize
    }
}

/// Whether the keys of `s` never decrease.
pub open spec fn ascending(s: Seq<u64>) -> bool {
    forall|p: int, q: int| 0 <= p < q < s.len() ==> order_key(#[trigger] s[p]) <= order_key(#[trigger] s[q])
}

/// The samples of `s` in ascending order.
pub open spec fn sorted(s: Seq<u64>) -> Seq<u64> {
    s.sort_by(sample_order())
}

/// The middle element of the samples of `s` in ascending order.
pub open spec fn median_of(s: Seq<u64>) -> u64 {
    sorted(s)[s.len() as int / 2]
}

/// A sequence that is ascending and holds the samples of `s` is `sorted(s)`.
pub proof fn lemma_sorted_is_unique(s: Seq<u64>, t: Seq<u64>)
    requires
        ascending(t),
        t.to_multiset() == s.to_multiset(),
    ensures
        t == sorted(s),
{
    lemma_sample_order_total();
    s.lemma_sort_by_ensures(sample_order());
    assert(sorted_by(t, sample_order()));
    lemma_sorted_unique(t, sorted(s), sample_order());
}

/// Putting `b` in place of one `a` and then `a` in place of one `b` gives
/// back the multiset one started from.
proof fn lemma_exchange(m: Multiset<u64>, a: u64, b: u64)
    requires
        m.count(a) > 0,
    ensures
        m.insert(b).remove(a).insert(a).remove(b) =~= m,
{
    broadcast use vstd::multiset::group_multiset_axioms;

    let m1 = m.insert(b);
    let m2 = m1.remove(a);
    let m3 = m2.insert(a);
    let m4 = m3.remove(b);
    assert forall|x: u64| m4.count(x) == m.count(x) by {
        assert(m1.count(x) == m.count(x) + (if x == b { 1int } else { 0 }));
        assert(m2.count(x) == m1.count(x) - (if x == a { 1int } else { 0 }));
        assert(m3.count(x) == m2.count(x) + (if x == a { 1int } else { 0 }));
        assert(m4.count(x) == m3.count(x) - (if x == b { 1int } else { 0 }));
    }
}

/// Sorts the samples in place, ascending.
pub fn sort_samples(v: &mut Vec<u64>)
    ensures
        final(v)@ == sorted(old(v)@),
        final(v).len() == old(v).len(),
{
    let n = v.len();
    let mut i: usize = 1;
    while i < n
        invariant
            n == v.len(),
            1 <= i || n == 0,
            v@.to_multiset() == old(v)@.to_multiset(),
            forall|p: int, q: int| 0 <= p < q < i && q < n ==> order_key(#[trigger] v@[p]) <= order_key(#[trigger] v@[q]),
        decreases n - i,
    {
        let mut j: usize = i;
        while j > 0 && !in_order(v[j - 1], v[j])
            invariant
                n == v.len(),
                j <= i < n,
                v@.to_multiset() == old(v)@.to_multiset(),
                forall|p: int, q: int| 0 <= p < q <= i && p != j && q != j ==> order_key(#[trigger] v@[p]) <= order_key(#[trigger] v@[q]),
                forall|q: int| j < q <= i ==> order_key(v@[j as int]) <= order_key(#[trigger] v@[q]),
            decreases j,
        {
            let a = v[j - 1];
            let b = v[j];
            proof {
                broadcast use vstd::multiset::group_multiset_axioms;
                broadcast use vstd::multiset::group_multiset_properties;
                let s0 = v@;
                let s1 = s0.update(j - 1, b);
                let s2 = s1.update(j as int, a);
                to_multiset_update(s0, j - 1, b);
                to_multiset_update(s1, j as int, a);
                assert(s0[j - 1] == a && s1[j as int] == b);
                assert(s1.to_multiset() == s0.to_multiset().insert(b).remove(a));
                assert(s2.to_multiset() == s1.to_multiset().insert(a).remove(b));
                assert(s0.to_multiset().count(a) > 0) by {
                    vstd::seq_lib::to_multiset_contains(s0, a);
                    assert(s0.contains(a));
                }
                lemma_exchange(s0.to_multiset(), a, b);
                assert(s2.to_multiset() =~= s0.to_multiset());
            }
            v.set(j - 1, b);
            v.set(j, a);
            j -= 1;
        }
        i += 1;
    }
    proof {
        assert(ascending(v@));
        lemma_sorted_is_unique(old(v)@, v@);
    }
}

/// Sample number `t` of the `w` x `w` window around row `i`, column `j` of
/// `g`, counting along the rows of the window; beyond the edges of `g` the
/// window sees the mirror image of `g`.
pub open spec fn window_cell(g: &Grid, i: int, j: int, w: int, t: int) -> u64 {
    g.at(mirror(i + t / w - w / 2, g.height() as int), mirror(j + t % w - w / 2, g.width() as int))
}

/// The samples of the `w` x `w` window around row `i`, column `j` of `g`.
pub open spec fn window(g: &Grid, i: int, j: int, w: int) -> Seq<u64> {
    Seq::new((w * w) as nat, |t: int| window_cell(g, i, j, w, t))
}

/// Whether a sliding median with this window can be taken of `g`: `g` has
/// cells, the window size is odd, and the window and the result are of a
/// size that can be held.
pub open spec fn can_filter(g: &Grid, window_size: usize) -> bool {
    &&& g.height() > 0 && g.width() > 0
    &&& window_size % 2 == 1 && window_size * window_size <= usize::MAX
    &&& shape_fits(g.height(), g.width())
}

/// The median of the window around each cell of `input`: the middle one of
/// the window's samples in ascending order. At the edges the window is
/// filled up with the mirror image of `input`.
///
/// An empty `input` is refused with `InsufficientData`, an even or too
/// large window with `DomainError`, and an `input` whose shape cannot be
/// held a second time with `ShapeMismatch`.
pub fn median_filter(input: &Grid, window_size: usize) -> (r: Result<Grid, Error>)
    ensures
        r is Ok <==> can_filter(input, window_size),
        r is Ok ==> {
            &&& r->Ok_0.height() == input.height()
            &&& r->Ok_0.width() == input.width()
            &&& forall|i: int, j: int|
                0 <= i < input.height() && 0 <= j < input.width() ==> #[trigger] r->Ok_0.at(i, j) == median_of(
                    window(input, i, j, window_size as int),
                )
        },
        r is Err ==> r->Err_0 == (if input.height() == 0 || input.width() == 0 {
            Error::InsufficientData
        } else if window_size % 2 == 0 || window_size * window_size > usize::MAX {
            Error::DomainError
        } else {
            Error::ShapeMismatch
        }),
{
    let h = input.rows();
    let wd = input.cols();
    if h == 0 || wd == 0 {
        return Err(Error::InsufficientData);
    }
    if window_size % 2 == 0 {
        return Err(Error::DomainError);
    }
    let area = match window_size.checked_mul(window_size) {
        Some(a) => a,
        None => {
            return Err(Error::DomainError);
        },
    };
    if !fits(h, wd) {
        return Err(Error::ShapeMismatch);
    }
    let w = window_size;
    let half = w / 2;
    let mut out = Grid::raw_filled(h, wd, 0);
    let mut i: usize = 0;
    while i < h
        invariant
            i <= h,
            h == input.height(),
            wd == input.width(),
            h > 0,
            wd > 0,
            w == window_size,
            w % 2 == 1,
            area == w * w,
            half == w / 2,
            out.height() == h,
            out.width() == wd,
            forall|a: int, b: int| 0 <= a < i && 0 <= b < wd ==> #[trigger] out.at(a, b) == median_of(window(input, a, b, w as int)),
        decreases h - i,
    {
        let mut j: usize = 0;
        while j < wd
            invariant
                i < h,
                j <= wd,
                h == input.height(),
                wd == input.width(),
                h > 0,
                wd > 0,
                w == window_size,
                w % 2 == 1,
                area == w * w,
                half == w / 2,
                out.height() == h,
                out.width() == wd,
                forall|a: int, b: int|
                    0 <= a < i && 0 <= b < wd ==> #[trigger] out.at(a, b) == median_of(window(input, a, b, w as int)),
                forall|b: int| 0 <= b < j ==> #[trigger] out.at(i as int, b) == median_of(window(input, i as int, b, w as int)),
            decreases wd - j,
        {
            let mut buf: Vec<u64> = Vec::new();
            let mut k: usize = 0;
            while k < w
                invariant
                    k <= w,
                    i < h,
                    j < wd,
                    h == input.height(),
                    wd == input.width(),
                    w > 0,
                    area == w * w,
                    half == w / 2,
                    buf.len() == k * w,
                    forall|t: int| 0 <= t < buf.len() ==> #[trigger] buf[t] == window_cell(input, i as int, j as int, w as int, t),
                decreases w - k,
            {
                let mut l: usize = 0;
                while l < w
                    invariant
                        k < w,
                        l <= w,
                        i < h,
                        j < wd,
                        h == input.height(),
                        wd == input.width(),
                        w > 0,
                        area == w * w,
                        half == w / 2,
                        buf.len() == k * w + l,
                        forall|t: int|
                            0 <= t < buf.len() ==> #[trigger] buf[t] == window_cell(input, i as int, j as int, w as int, t),
                    decreases w - l,
                {
                    proof {
                        lemma_fundamental_div_mod_converse((k * w + l) as int, w as int, k as int, l as int);
                        assert(k * w + l < w * w) by (nonlinear_arith)
                            requires
                                k < w,
                                l < w,
                        ;
                    }
                    let row = mirror_index(i as i128 + k as i128 - half as i128, h);
                    let col = mirror_index(j as i128 + l as i128 - half as i128, wd);
                    buf.push(input.raw_get(row, col));
                    l += 1;
                }
                proof {
                    assert((k + 1) * w == k * w + w) by (nonlinear_arith);
                }
                k += 1;
            }
            proof {
                assert(k * w == w * w) by (nonlinear_arith)
                    requires
                        k == w,
                ;
                assert(buf@ =~= window(input, i as int, j as int, w as int));
                assert(buf.len() == area);
                assert(area > 0) by (nonlinear_arith)
                    requires
                        area == w * w,
                        w > 0,
                ;
            }
            sort_samples(&mut buf);
            out.put(i, j, buf[area / 2]);
            j += 1;
        }
        i += 1;
    }
    Ok(out)
}

/// Whether a matrix of intensities is large enough to look for spikes in:
/// at least two rows and two columns.
pub open spec fn can_despike(rows: nat, frames: nat) -> bool {
    rows >= 2 && frames >= 2
}

/// The intensities of `dataset`, one column per frame, as the image in which
/// spikes are looked for. Refused with `InsufficientData` when the dataset
/// has fewer than two rows or fewer than two frames.
pub fn despike_input(dataset: &Dataset) -> (r: Result<Grid, Error>)
    requires
        dataset.wf(),
    ensures
        r is Ok <==> can_despike(dataset.pixels(), dataset.frames()),
        r is Err ==> r->Err_0 == Error::InsufficientData,
        r is Ok ==> {
            &&& r->Ok_0.height() == dataset.pixels()
            &&& r->Ok_0.width() == dataset.frames()
            &&& forall|i: int, k: int|
                0 <= i < dataset.pixels() && 0 <= k < dataset.frames() ==> #[trigger] r->Ok_0.at(i, k) == dataset.grid().at(
                    i,
                    2 * k + 1,
                )
        },
{
    if dataset.rows() < 2 || dataset.frame_count() < 2 {
        return Err(Error::InsufficientData);
    }
    Ok(dataset.intensities())
}

/// Whether `flagged` has one entry for each cell of a `rows` x `cols` matrix.
pub open spec fn covers(flagged: &Vec<Vec<bool>>, rows: nat, cols: nat) -> bool {
    &&& flagged.len() == rows
    &&& forall|i: int| 0 <= i < rows ==> (#[trigger] flagged[i]).len() == cols
}

/// Puts the sample of `repaired` in place of each flagged sample of `image`
/// and leaves every other sample untouched. Refused with `ShapeMismatch`,
/// and nothing changes, unless `repaired` and `flagged` have the shape of
/// `image`.
pub fn replace_flagged(image: &mut Grid, repaired: &Grid, flagged: &Vec<Vec<bool>>) -> (r: Result<(), Error>)
    ensures
        final(image).height() == old(image).height(),
        final(image).width() == old(image).width(),
        r is Ok <==> repaired.height() == old(image).height() && repaired.width() == old(image).width() && covers(
            flagged,
            old(image).height(),
            old(image).width(),
        ),
        r is Err ==> r->Err_0 == Error::ShapeMismatch,
        forall|i: int, j: int|
            0 <= i < old(image).height() && 0 <= j < old(image).width() ==> #[trigger] final(image).at(i, j) == (if r is Ok
                && flagged[i][j] {
                repaired.at(i, j)
            } else {
                old(image).at(i, j)
            }),
{
    let h = image.rows();
    let wd = image.cols();
    if repaired.rows() != h || repaired.cols() != wd || flagged.len() != h {
        return Err(Error::ShapeMismatch);
    }
    let mut c: usize = 0;
    while c < h
        invariant
            c <= h,
            flagged.len() == h,
            *image == *old(image),
            h == old(image).height(),
            wd == old(image).width(),
            repaired.height() == h,
            repaired.width() == wd,
            forall|i: int| 0 <= i < c ==> (#[trigger] flagged[i]).len() == wd,
        decreases h - c,
    {
        if flagged[c].len() != wd {
            proof {
                assert(flagged[c as int].len() != wd);
                assert(!covers(flagged, h as nat, wd as nat));
            }
            return Err(Error::ShapeMismatch);
        }
        c += 1;
    }
    let mut i: usize = 0;
    while i < h
        invariant
            i <= h,
            h == old(image).height(),
            wd == old(image).width(),
            image.height() == h,
            image.width() == wd,
            repaired.height() == h,
            repaired.width() == wd,
            covers(flagged, h as nat, wd as nat),
            forall|a: int, b: int|
                0 <= a < h && 0 <= b < wd ==> #[trigger] image.at(a, b) == (if a < i && flagged[a][b] {
                    repaired.at(a, b)
                } else {
                    old(image).at(a, b)
                }),
        decreases h - i,
    {
        let mut j: usize = 0;
        while j < wd
            invariant
                i < h,
                j <= wd,
                h == old(image).height(),
                wd == old(image).width(),
                image.height() == h,
                image.width() == wd,
                repaired.height() == h,
                repaired.width() == wd,
                covers(flagged, h as nat, wd as nat),
                forall|a: int, b: int|
                    0 <= a < h && 0 <= b < wd ==> #[trigger] image.at(a, b) == (if (a < i || (a == i && b < j)) && flagged[a][b] {
                        repaired.at(a, b)
                    } else {
                        old(image).at(a, b)
                    }),
            decreases wd - j,
        {
            if flagged[i][j] {
                let v = repaired.raw_get(i, j);
                image.put(i, j, v);
            }
            j += 1;
        }
        i += 1;
    }
    Ok(())
}

/// Whether `edges` holds, for each sample of `image`, what `edge` made of
/// the sample and of the samples above, below, left and right of it, in
/// that order; beyond the edges of `image` stands its mirror image.
pub open spec fn edges_taken<L: Fn(u64, u64, u64, u64, u64) -> u64>(image: &Grid, edges: &Grid, edge: L) -> bool {
    &&& edges.height() == image.height()
    &&& edges.width() == image.width()
    &&& forall|i: int, j: int|
        0 <= i < image.height() && 0 <= j < image.width() ==> call_ensures(
            edge,
            (
                image.at(i, j),
                image.at(mirror(i - 1, image.height() as int), j),
                image.at(mirror(i + 1, image.height() as int), j),
                image.at(i, mirror(j - 1, image.width() as int)),
                image.at(i, mirror(j + 1, image.width() as int)),
            ),
            #[trigger] edges.at(i, j),
        )
}

/// Whether `signals` holds, for each sample, what `signal` made of the edge
/// value there and of the median of the 5 x 5 window of `image` there.
pub open spec fn signals_taken<S: Fn(u64, u64) -> u64>(image: &Grid, edges: &Grid, signals: &Grid, signal: S) -> bool {
    &&& signals.height() == image.height()
    &&& signals.width() == image.width()
    &&& forall|i: int, j: int|
        0 <= i < image.height() && 0 <= j < image.width() ==> call_ensures(
            signal,
            (edges.at(i, j), median_of(window(image, i, j, 5))),
            #[trigger] signals.at(i, j),
        )
}

/// The median of the 3 x 3 window around a sample of `image`.
pub open spec fn repaired_sample(image: &Grid, i: int, j: int) -> u64 {
    median_of(window(image, i, j, 3))
}

/// The median of the 7 x 7 window, around a sample, of the medians of the
/// 3 x 3 windows of `image`: its smooth part.
pub open spec fn smooth_sample(image: &Grid, i: int, j: int) -> u64 {
    median_of(
        Seq::new(
            49,
            |t: int|
                repaired_sample(
                    image,
                    mirror(i + t / 7 - 3, image.height() as int),
                    mirror(j + t % 7 - 3, image.width() as int),
                ),
        ),
    )
}

/// Whether `flagged` holds, for each sample, what `cosmic` made of: the
/// signal there, the median of the 5 x 5 window of the signals there, the
/// edge value there, the median of the 3 x 3 window of `image` there, and
/// the smooth part of `image` there.
pub open spec fn flags_taken<D: Fn(u64, u64, u64, u64, u64) -> bool>(
    image: &Grid,
    edges: &Grid,
    signals: &Grid,
    flagged: &Vec<Vec<bool>>,
    cosmic: D,
) -> bool {
    &&& covers(flagged, image.height(), image.width())
    &&& forall|i: int, j: int|
        0 <= i < image.height() && 0 <= j < image.width() ==> call_ensures(
            cosmic,
            (
                signals.at(i, j),
                median_of(window(signals, i, j, 5)),
                edges.at(i, j),
                repaired_sample(image, i, j),
                smooth_sample(image, i, j),
            ),
            #[trigger] flagged[i][j],
        )
}

/// Whether `after` is `before` with each flagged sample replaced by the
/// median of its 3 x 3 window, and every other sample untouched.
pub open spec fn flagged_repaired(before: &Grid, after: &Grid, flagged: &Vec<Vec<bool>>) -> bool {
    &&& after.height() == before.height()
    &&& after.width() == before.width()
    &&& forall|i: int, j: int|
        0 <= i < before.height() && 0 <= j < before.width() ==> #[trigger] after.at(i, j) == (if flagged[i][j] {
            repaired_sample(before, i, j)
        } else {
            before.at(i, j)
        })
}

/// Whether `after` comes from `before` by one pass of spike removal with
/// the edge values `edges`, the signals `signals` and the flags `flagged`.
pub open spec fn pass_made<L: Fn(u64, u64, u64, u64, u64) -> u64, S: Fn(u64, u64) -> u64, D: Fn(
    u64,
    u64,
    u64,
    u64,
    u64,
) -> bool>(
    before: &Grid,
    after: &Grid,
    edges: &Grid,
    signals: &Grid,
    flagged: &Vec<Vec<bool>>,
    edge: L,
    signal: S,
    cosmic: D,
) -> bool {
    &&& edges_taken(before, edges, edge)
    &&& signals_taken(before, edges, signals, signal)
    &&& flags_taken(before, edges, signals, flagged, cosmic)
    &&& flagged_repaired(before, after, flagged)
}

/// Whether `after` comes from `before` by one pass of spike removal: an
/// edge value is taken of each sample and its four neighbours, a signal of
/// the edge value and the local median, a flag of the signal, the local
/// median of the signals, the edge value and the fine structure of the
/// image; flagged samples are replaced by the median of their 3 x 3 window
/// and no other sample changes.
pub open spec fn despiked_once<L: Fn(u64, u64, u64, u64, u64) -> u64, S: Fn(u64, u64) -> u64, D: Fn(
    u64,
    u64,
    u64,
    u64,
    u64,
) -> bool>(before: &Grid, after: &Grid, edge: L, signal: S, cosmic: D) -> bool {
    exists|edges: Grid, signals: Grid, flagged: Vec<Vec<bool>>| #[trigger]
        pass_made(before, after, &edges, &signals, &flagged, edge, signal, cosmic)
}

/// A pass of spike removal keeps the shape of the image, and leaves each
/// sample as it is or puts the median of its 3 x 3 window in its place.
pub proof fn lemma_pass_repairs_or_keeps<L: Fn(u64, u64, u64, u64, u64) -> u64, S: Fn(u64, u64) -> u64, D: Fn(
    u64,
    u64,
    u64,
    u64,
    u64,
) -> bool>(before: &Grid, after: &Grid, edge: L, signal: S, cosmic: D)
    requires
        despiked_once(before, after, edge, signal, cosmic),
    ensures
        after.height() == before.height(),
        after.width() == before.width(),
        forall|i: int, j: int|
            0 <= i < before.height() && 0 <= j < before.width() ==> #[trigger] after.at(i, j) == before.at(i, j) || after.at(
                i,
                j,
            ) == repaired_sample(before, i, j),
{
    let (edges, signals, flagged) = choose|edges: Grid, signals: Grid, flagged: Vec<Vec<bool>>| #[trigger]
        pass_made(before, after, &edges, &signals, &flagged, edge, signal, cosmic);
    assert(flagged_repaired(before, after, &flagged));
}

/// Whether an image can be searched for spikes: it has at least two rows
/// and two columns and a shape of which copies can be held.
pub open spec fn can_search(image: &Grid) -> bool {
    &&& can_despike(image.height(), image.width())
    &&& shape_fits(image.height(), image.width())
}

/// One pass of spike removal over `image`, whose columns are the
/// intensities of the frames.
///
/// `edge` is given a sample and the samples above, below, left and right of
/// it, and measures how sharply the sample stands out. `signal` is given
/// the edge value and the median of the 5 x 5 window around the sample, and
/// weighs the one by the noise that the other lets expect. `cosmic` is
/// given the signal, the median of the 5 x 5 window of signals, the edge
/// value, the median of the 3 x 3 window of the image and the median of the
/// 7 x 7 window of these medians, and decides whether the sample is a
/// spike. Each spike is replaced by the median of its 3 x 3 window; all
/// other samples stay as they are.
///
/// An image with fewer than two rows or columns is refused with
/// `InsufficientData`, one whose shape cannot be held a second time with
/// `ShapeMismatch`; it then stays as it was.
pub fn despike_pass<L: Fn(u64, u64, u64, u64, u64) -> u64, S: Fn(u64, u64) -> u64, D: Fn(
    u64,
    u64,
    u64,
    u64,
    u64,
) -> bool>(image: &mut Grid, edge: &L, signal: &S, cosmic: &D) -> (r: Result<(), Error>)
    requires
        forall|c: u64, n: u64, s: u64, w: u64, e: u64| call_requires(*edge, (c, n, s, w, e)),
        forall|l: u64, m: u64| call_requires(*signal, (l, m)),
        forall|a: u64, b: u64, c: u64, d: u64, e: u64| call_requires(*cosmic, (a, b, c, d, e)),
    ensures
        final(image).height() == old(image).height(),
        final(image).width() == old(image).width(),
        r is Ok <==> can_search(old(image)),
        r is Ok ==> despiked_once(old(image), final(image), *edge, *signal, *cosmic),
        r is Err ==> *final(image) == *old(image) && r->Err_0 == (if can_despike(
            old(image).height(),
            old(image).width(),
        ) {
            Error::ShapeMismatch
        } else {
            Error::InsufficientData
        }),
{
    let h = image.rows();
    let wd = image.cols();
    if h < 2 || wd < 2 {
        return Err(Error::InsufficientData);
    }
    if !fits(h, wd) {
        return Err(Error::ShapeMismatch);
    }
    let ghost before = *image;
    let median5 = match median_filter(image, 5) {
        Ok(g) => g,
        Err(_) => {
            return Err(Error::ShapeMismatch);
        },
    };
    let median3 = match median_filter(image, 3) {
        Ok(g) => g,
        Err(_) => {
            return Err(Error::ShapeMismatch);
        },
    };
    let median37 = match median_filter(&median3, 7) {
        Ok(g) => g,
        Err(_) => {
            return Err(Error::ShapeMismatch);
        },
    };
    let mut edges = Grid::raw_filled(h, wd, 0);
    let mut signals = Grid::raw_filled(h, wd, 0);
    let mut i: usize = 0;
    while i < h
        invariant
            i <= h,
            *image == before,
            h == before.height(),
            wd == before.width(),
            h > 0,
            wd > 0,
            edges.height() == h,
            edges.width() == wd,
            signals.height() == h,
            signals.width() == wd,
            median5.height() == h,
            median5.width() == wd,
            forall|a: int, b: int| 0 <= a < h && 0 <= b < wd ==> #[trigger] median5.at(a, b) == median_of(window(&before, a, b, 5)),
            forall|c: u64, n: u64, s: u64, w: u64, e: u64| call_requires(*edge, (c, n, s, w, e)),
            forall|l: u64, m: u64| call_requires(*signal, (l, m)),
            forall|a: int, b: int|
                0 <= a < i && 0 <= b < wd ==> call_ensures(
                    *edge,
                    (
                        before.at(a, b),
                        before.at(mirror(a - 1, h as int), b),
                        before.at(mirror(a + 1, h as int), b),
                        before.at(a, mirror(b - 1, wd as int)),
                        before.at(a, mirror(b + 1, wd as int)),
                    ),
                    #[trigger] edges.at(a, b),
                ),
            forall|a: int, b: int|
                0 <= a < i && 0 <= b < wd ==> call_ensures(
                    *signal,
                    (edges.at(a, b), median_of(window(&before, a, b, 5))),
                    #[trigger] signals.at(a, b),
                ),
        decreases h - i,
    {
        let mut j: usize = 0;
        while j < wd
            invariant
                i < h,
                j <= wd,
                *image == before,
                h == before.height(),
                wd == before.width(),
                h > 0,
                wd > 0,
                edges.height() == h,
                edges.width() == wd,
                signals.height() == h,
                signals.width() == wd,
                median5.height() == h,
                median5.width() == wd,
                forall|a: int, b: int|
                    0 <= a < h && 0 <= b < wd ==> #[trigger] median5.at(a, b) == median_of(window(&before, a, b, 5)),
                forall|c: u64, n: u64, s: u64, w: u64, e: u64| call_requires(*edge, (c, n, s, w, e)),
                forall|l: u64, m: u64| call_requires(*signal, (l, m)),
                forall|a: int, b: int|
                    0 <= a < h && 0 <= b < wd && (a < i || (a == i && b < j)) ==> call_ensures(
                        *edge,
                        (
                            before.at(a, b),
                            before.at(mirror(a - 1, h as int), b),
                            before.at(mirror(a + 1, h as int), b),
                            before.at(a, mirror(b - 1, wd as int)),
                            before.at(a, mirror(b + 1, wd as int)),
                        ),
                        #[trigger] edges.at(a, b),
                    ),
                forall|a: int, b: int|
                    0 <= a < h && 0 <= b < wd && (a < i || (a == i && b < j)) ==> call_ensures(
                        *signal,
                        (edges.at(a, b), median_of(window(&before, a, b, 5))),
                        #[trigger] signals.at(a, b),
                    ),
            decreases wd - j,
        {
            let above = mirror_index(i as i128 - 1, h);
            let below = mirror_index(i as i128 + 1, h);
            let left = mirror_index(j as i128 - 1, wd);
            let right = mirror_index(j as i128 + 1, wd);
            let l = edge(
                image.raw_get(i, j),
                image.raw_get(above, j),
                image.raw_get(below, j),
                image.raw_get(i, left),
                image.raw_get(i, right),
            );
            edges.put(i, j, l);
            let s = signal(l, median5.raw_get(i, j));
            signals.put(i, j, s);
            j += 1;
        }
        i += 1;
    }
    let signal_median = match median_filter(&signals, 5) {
        Ok(g) => g,
        Err(_) => {
            return Err(Error::ShapeMismatch);
        },
    };
    let mut flagged: Vec<Vec<bool>> = Vec::new();
    let mut i: usize = 0;
    while i < h
        invariant
            i <= h,
            *image == before,
            h == before.height(),
            wd == before.width(),
            edges.height() == h,
            edges.width() == wd,
            signals.height() == h,
            signals.width() == wd,
            signal_median.height() == h,
            signal_median.width() == wd,
            median3.height() == h,
            median3.width() == wd,
            median37.height() == h,
            median37.width() == wd,
            flagged.len() == i,
            forall|a: int| 0 <= a < i ==> (#[trigger] flagged[a]).len() == wd,
            forall|a: u64, b: u64, c: u64, d: u64, e: u64| call_requires(*cosmic, (a, b, c, d, e)),
            forall|a: int, b: int|
                0 <= a < i && 0 <= b < wd ==> call_ensures(
                    *cosmic,
                    (signals.at(a, b), signal_median.at(a, b), edges.at(a, b), median3.at(a, b), median37.at(a, b)),
                    #[trigger] flagged[a][b],
                ),
        decreases h - i,
    {
        let mut row: Vec<bool> = Vec::new();
        let mut j: usize = 0;
        while j < wd
            invariant
                i < h,
                j <= wd,
                h == before.height(),
                wd == before.width(),
                edges.height() == h,
                edges.width() == wd,
                signals.height() == h,
                signals.width() == wd,
                signal_median.height() == h,
                signal_median.width() == wd,
                median3.height() == h,
                median3.width() == wd,
                median37.height() == h,
                median37.width() == wd,
                row.len() == j,
                forall|a: u64, b: u64, c: u64, d: u64, e: u64| call_requires(*cosmic, (a, b, c, d, e)),
                forall|b: int|
                    0 <= b < j ==> call_ensures(
                        *cosmic,
                        (
                            signals.at(i as int, b),
                            signal_median.at(i as int, b),
                            edges.at(i as int, b),
                            median3.at(i as int, b),
                            median37.at(i as int, b),
                        ),
                        #[trigger] row[b],
                    ),
            decreases wd - j,
        {
            let flag = cosmic(
                signals.raw_get(i, j),
                signal_median.raw_get(i, j),
                edges.raw_get(i, j),
                median3.raw_get(i, j),
                median37.raw_get(i, j),
            );
            row.push(flag);
            j += 1;
        }
        flagged.push(row);
        i += 1;
    }
    proof {
        assert forall|a: int, b: int| 0 <= a < h && 0 <= b < wd implies #[trigger] median37.at(a, b) == smooth_sample(
            &before,
            a,
            b,
        ) by {
            lemma_smooth_sample(&before, &median3, a, b);
        }
    }
    match replace_flagged(image, &median3, &flagged) {
        Ok(()) => {},
        Err(_) => {
            return Err(Error::ShapeMismatch);
        },
    }
    proof {
        assert(edges_taken(&before, &edges, *edge));
        assert(signals_taken(&before, &edges, &signals, *signal));
        assert(flags_taken(&before, &edges, &signals, &flagged, *cosmic));
        assert(flagged_repaired(&before, image, &flagged));
        assert(pass_made(&before, image, &edges, &signals, &flagged, *edge, *signal, *cosmic));
    }
    Ok(())
}

/// The window of a grid of medians holds the medians of the windows.
proof fn lemma_smooth_sample(image: &Grid, medians: &Grid, i: int, j: int)
    requires
        medians.height() == image.height(),
        medians.width() == image.width(),
        image.height() > 0,
        image.width() > 0,
        0 <= i < image.height(),
        0 <= j < image.width(),
        forall|a: int, b: int|
            0 <= a < image.height() && 0 <= b < image.width() ==> #[trigger] medians.at(a, b) == repaired_sample(image, a, b),
    ensures
        median_of(window(medians, i, j, 7)) == smooth_sample(image, i, j),
{
    let h = image.height() as int;
    let w = image.width() as int;
    let smooth = Seq::new(49, |t: int| repaired_sample(image, mirror(i + t / 7 - 3, h), mirror(j + t % 7 - 3, w)));
    assert forall|t: int| 0 <= t < 49 implies #[trigger] window(medians, i, j, 7)[t] == smooth[t] by {
        lemma_mirror(i + t / 7 - 3, h);
        lemma_mirror(j + t % 7 - 3, w);
    }
    assert(window(medians, i, j, 7) =~= smooth);
}

/// Whether `after` comes from `before` by `passes` passes of spike removal,
/// one after the other.
pub open spec fn despiked<L: Fn(u64, u64, u64, u64, u64) -> u64, S: Fn(u64, u64) -> u64, D: Fn(
    u64,
    u64,
    u64,
    u64,
    u64,
) -> bool>(before: &Grid, after: &Grid, passes: nat, edge: L, signal: S, cosmic: D) -> bool
    decreases passes,
{
    if passes == 0 {
        *after == *before
    } else {
        exists|mid: Grid|
            despiked(before, &mid, (passes - 1) as nat, edge, signal, cosmic) && #[trigger] despiked_once(
                &mid,
                after,
                edge,
                signal,
                cosmic,
            )
    }
}

/// Removes spikes from `image`, whose columns are the intensities of the
/// frames, in `passes` passes; see [`despike_pass`] for one pass and for
/// what `edge`, `signal` and `cosmic` are given.
///
/// An image with fewer than two rows or columns is refused with
/// `InsufficientData`, one whose shape cannot be held a second time with
/// `ShapeMismatch`; it then stays as it was.
pub fn despike<L: Fn(u64, u64, u64, u64, u64) -> u64, S: Fn(u64, u64) -> u64, D: Fn(u64, u64, u64, u64, u64) -> bool>(
    image: &mut Grid,
    passes: usize,
    edge: &L,
    signal: &S,
    cosmic: &D,
) -> (r: Result<(), Error>)
    requires
        forall|c: u64, n: u64, s: u64, w: u64, e: u64| call_requires(*edge, (c, n, s, w, e)),
        forall|l: u64, m: u64| call_requires(*signal, (l, m)),
        forall|a: u64, b: u64, c: u64, d: u64, e: u64| call_requires(*cosmic, (a, b, c, d, e)),
    ensures
        final(image).height() == old(image).height(),
        final(image).width() == old(image).width(),
        r is Ok <==> can_search(old(image)),
        r is Ok ==> despiked(old(image), final(image), passes as nat, *edge, *signal, *cosmic),
        r is Err ==> *final(image) == *old(image) && r->Err_0 == (if can_despike(
            old(image).height(),
            old(image).width(),
        ) {
            Error::ShapeMismatch
        } else {
            Error::InsufficientData
        }),
{
    if image.rows() < 2 || image.cols() < 2 {
        return Err(Error::InsufficientData);
    }
    if !fits(image.rows(), image.cols()) {
        return Err(Error::ShapeMismatch);
    }
    let mut k: usize = 0;
    while k < passes
        invariant
            k <= passes,
            image.height() == old(image).height(),
            image.width() == old(image).width(),
            can_search(old(image)),
            forall|c: u64, n: u64, s: u64, w: u64, e: u64| call_requires(*edge, (c, n, s, w, e)),
            forall|l: u64, m: u64| call_requires(*signal, (l, m)),
            forall|a: u64, b: u64, c: u64, d: u64, e: u64| call_requires(*cosmic, (a, b, c, d, e)),
            despiked(old(image), image, k as nat, *edge, *signal, *cosmic),
        decreases passes - k,
    {
        let ghost mid = *image;
        match despike_pass(image, edge, signal, cosmic) {
            Ok(()) => {},
            Err(e) => {
                return Err(e);
            },
        }
        proof {
            let next = (k + 1) as nat;
            assert((next - 1) as nat == k as nat);
            assert(despiked(old(image), &mid, (next - 1) as nat, *edge, *signal, *cosmic) && despiked_once(
                &mid,
                image,
                *edge,
                *signal,
                *cosmic,
            ));
            assert(despiked(old(image), image, next, *edge, *signal, *cosmic));
        }
        k += 1;
    }
    Ok(())
}

/// The arithmetic that spike removal needs on the numbers that samples
/// stand for, and its two thresholds.
pub struct SpikeArithmetic<Q, P, S, M, D> {
    /// The sample that stands for zero.
    pub zero: u64,
    /// The threshold for the signal of a spike.
    pub siglim: u64,
    /// The threshold for the ratio of edge value and fine structure.
    pub flim: u64,
    /// Given a sample and two of its neighbours: twice the sample minus
    /// the two neighbours.
    pub quadrant: Q,
    /// The sum of two numbers.
    pub add: P,
    /// Given an edge value and the median of the 5 x 5 window: the edge
    /// value divided by twice the noise that the median lets expect.
    pub signal: S,
    /// The difference of two numbers.
    pub minus: M,
    /// The quotient of two numbers.
    pub ratio: D,
}

impl<
    Q: Fn(u64, u64, u64) -> u64,
    P: Fn(u64, u64) -> u64,
    S: Fn(u64, u64) -> u64,
    M: Fn(u64, u64) -> u64,
    D: Fn(u64, u64) -> u64,
> SpikeArithmetic<Q, P, S, M, D> {
    /// Whether the arithmetic can be relied on: each operation takes any
    /// arguments, and always gives the same result for the same arguments.
    pub open spec fn lawful(&self) -> bool {
        &&& forall|c: u64, a: u64, b: u64| call_requires(self.quadrant, (c, a, b))
        &&& forall|c: u64, a: u64, b: u64, r: u64, s: u64|
            call_ensures(self.quadrant, (c, a, b), r) && call_ensures(self.quadrant, (c, a, b), s) ==> r == s
        &&& forall|a: u64, b: u64| call_requires(self.add, (a, b))
        &&& forall|a: u64, b: u64, r: u64, s: u64|
            call_ensures(self.add, (a, b), r) && call_ensures(self.add, (a, b), s) ==> r == s
        &&& forall|a: u64, b: u64| call_requires(self.signal, (a, b))
        &&& forall|a: u64, b: u64, r: u64, s: u64|
            call_ensures(self.signal, (a, b), r) && call_ensures(self.signal, (a, b), s) ==> r == s
        &&& forall|a: u64, b: u64| call_requires(self.minus, (a, b))
        &&& forall|a: u64, b: u64, r: u64, s: u64|
            call_ensures(self.minus, (a, b), r) && call_ensures(self.minus, (a, b), s) ==> r == s
        &&& forall|a: u64, b: u64| call_requires(self.ratio, (a, b))
        &&& forall|a: u64, b: u64, r: u64, s: u64|
            call_ensures(self.ratio, (a, b), r) && call_ensures(self.ratio, (a, b), s) ==> r == s
    }

    /// What `quadrant` gives.
    pub open spec fn quadrant_of(&self, c: u64, a: u64, b: u64) -> u64 {
        choose|r: u64| call_ensures(self.quadrant, (c, a, b), r)
    }

    /// What `add` gives.
    pub open spec fn sum(&self, a: u64, b: u64) -> u64 {
        choose|r: u64| call_ensures(self.add, (a, b), r)
    }

    /// What `signal` gives.
    pub open spec fn signal_of(&self, edge: u64, median: u64) -> u64 {
        choose|r: u64| call_ensures(self.signal, (edge, median), r)
    }

    /// What `minus` gives.
    pub open spec fn difference(&self, a: u64, b: u64) -> u64 {
        choose|r: u64| call_ensures(self.minus, (a, b), r)
    }

    /// What `ratio` gives.
    pub open spec fn quotient(&self, a: u64, b: u64) -> u64 {
        choose|r: u64| call_ensures(self.ratio, (a, b), r)
    }

    /// `so_far` with `value` added if `value` is larger than zero.
    pub open spec fn with_positive(&self, so_far: u64, value: u64) -> u64 {
        if less(self.zero, value) {
            self.sum(so_far, value)
        } else {
            so_far
        }
    }

    /// The edge value of a sample `c` with the neighbours `n` above, `s`
    /// below, `w` left and `e` right of it: the Laplacian taken on a grid of
    /// twice the resolution, where the sample falls into four quadrants,
    /// each between two of its neighbours; the sum of those of the four
    /// values that are larger than zero.
    pub open spec fn edge_value(&self, c: u64, n: u64, s: u64, w: u64, e: u64) -> u64 {
        self.with_positive(
            self.with_positive(
                self.with_positive(
                    self.with_positive(self.zero, self.quadrant_of(c, s, e)),
                    self.quadrant_of(c, s, w),
                ),
                self.quadrant_of(c, n, e),
            ),
            self.quadrant_of(c, n, w),
        )
    }

    /// Whether a sample is a spike: its signal stands out from the median
    /// of the signals around it by more than `siglim`, and its edge value
    /// is more than `flim` times the fine structure of the image there,
    /// which is the median of the 3 x 3 window minus the smooth part.
    pub open spec fn is_spike(&self, signal: u64, signal_median: u64, edge: u64, median3: u64, smooth: u64) -> bool {
        less(self.siglim, self.difference(signal, signal_median)) && less(
            self.flim,
            self.quotient(edge, self.difference(median3, smooth)),
        )
    }

    /// Computes [`Self::edge_value`].
    pub fn edge_of(&self, c: u64, n: u64, s: u64, w: u64, e: u64) -> (r: u64)
        requires
            self.lawful(),
        ensures
            r == self.edge_value(c, n, s, w, e),
    {
        let mut sum = self.zero;
        let q = (self.quadrant)(c, s, e);
        if sample_lt(self.zero, q) {
            sum = (self.add)(sum, q);
        }
        let q = (self.quadrant)(c, s, w);
        if sample_lt(self.zero, q) {
            sum = (self.add)(sum, q);
        }
        let q = (self.quadrant)(c, n, e);
        if sample_lt(self.zero, q) {
            sum = (self.add)(sum, q);
        }
        let q = (self.quadrant)(c, n, w);
        if sample_lt(self.zero, q) {
            sum = (self.add)(sum, q);
        }
        sum
    }

    /// Decides [`Self::is_spike`].
    pub fn spike(&self, signal: u64, signal_median: u64, edge: u64, median3: u64, smooth: u64) -> (r: bool)
        requires
            self.lawful(),
        ensures
            r == self.is_spike(signal, signal_median, edge, median3, smooth),
    {
        let stands_out = (self.minus)(signal, signal_median);
        let fine = (self.minus)(median3, smooth);
        let sharpness = (self.ratio)(edge, fine);
        sample_lt(self.siglim, stands_out) && sample_lt(self.flim, sharpness)
    }

    /// Whether `edges` holds the edge value of each sample of `image`.
    pub open spec fn edges_of(&self, image: &Grid, edges: &Grid) -> bool {
        &&& edges.height() == image.height()
        &&& edges.width() == image.width()
        &&& forall|i: int, j: int|
            0 <= i < image.height() && 0 <= j < image.width() ==> #[trigger] edges.at(i, j) == self.edge_value(
                image.at(i, j),
                image.at(mirror(i - 1, image.height() as int), j),
                image.at(mirror(i + 1, image.height() as int), j),
                image.at(i, mirror(j - 1, image.width() as int)),
                image.at(i, mirror(j + 1, image.width() as int)),
            )
    }

    /// Whether `signals` holds the signal of each sample of `image`: what
    /// `signal` makes of its edge value and of the median of its 5 x 5
    /// window.
    pub open spec fn signals_of(&self, image: &Grid, edges: &Grid, signals: &Grid) -> bool {
        &&& signals.height() == image.height()
        &&& signals.width() == image.width()
        &&& forall|i: int, j: int|
            0 <= i < image.height() && 0 <= j < image.width() ==> #[trigger] signals.at(i, j) == self.signal_of(
                edges.at(i, j),
                median_of(window(image, i, j, 5)),
            )
    }

    /// Whether `after` is `before` with each spike replaced by the median
    /// of its 3 x 3 window, and every other sample untouched, where
    /// `edges` and `signals` hold the edge values and the signals of
    /// `before`.
    pub open spec fn spikes_repaired(&self, before: &Grid, after: &Grid, edges: &Grid, signals: &Grid) -> bool {
        &&& after.height() == before.height()
        &&& after.width() == before.width()
        &&& forall|i: int, j: int|
            0 <= i < before.height() && 0 <= j < before.width() ==> #[trigger] after.at(i, j) == (if self.is_spike(
                signals.at(i, j),
                median_of(window(signals, i, j, 5)),
                edges.at(i, j),
                repaired_sample(before, i, j),
                smooth_sample(before, i, j),
            ) {
                repaired_sample(before, i, j)
            } else {
                before.at(i, j)
            })
    }

    /// Whether `after` comes from `before` by one pass of spike removal.
    pub open spec fn pass_removed(&self, before: &Grid, after: &Grid) -> bool {
        exists|edges: Grid, signals: Grid|
            self.edges_of(before, &edges) && self.signals_of(before, &edges, &signals) && #[trigger] self.spikes_repaired(
                before,
                after,
                &edges,
                &signals,
            )
    }

    /// Whether `after` comes from `before` by `passes` passes of spike
    /// removal, one after the other.
    pub open spec fn spikes_removed(&self, before: &Grid, after: &Grid, passes: nat) -> bool
        decreases passes,
    {
        if passes == 0 {
            *after == *before
        } else {
            exists|mid: Grid| self.spikes_removed(before, &mid, (passes - 1) as nat) && #[trigger] self.pass_removed(&mid, after)
        }
    }

    /// Removes spikes from `image`, whose columns are the intensities of the
    /// frames, in `passes` passes. In each pass the edge value of every
    /// sample is taken, see [`Self::edge_value`], and from it and the median
    /// of the 5 x 5 window around the sample its signal; a sample that is a
    /// spike, see [`Self::is_spike`], is replaced by the median of its
    /// 3 x 3 window, and all other samples stay as they are. Beyond the
    /// edges of the image stands its mirror image.
    ///
    /// An image with fewer than two rows or columns is refused with
    /// `InsufficientData`, one whose shape cannot be held a second time with
    /// `ShapeMismatch`; it then stays as it was.
    pub fn remove_spikes(&self, image: &mut Grid, passes: usize) -> (r: Result<(), Error>)
        requires
            self.lawful(),
        ensures
            final(image).height() == old(image).height(),
            final(image).width() == old(image).width(),
            r is Ok <==> can_search(old(image)),
            r is Ok ==> self.spikes_removed(old(image), final(image), passes as nat),
            r is Err ==> *final(image) == *old(image) && r->Err_0 == (if can_despike(
                old(image).height(),
                old(image).width(),
            ) {
                Error::ShapeMismatch
            } else {
                Error::InsufficientData
            }),
    {
        let edge = |c: u64, n: u64, s: u64, w: u64, e: u64| -> (r: u64)
            ensures
                r == self.edge_value(c, n, s, w, e),
            { self.edge_of(c, n, s, w, e) };
        let signal = |edge: u64, median: u64| -> (r: u64)
            ensures
                r == self.signal_of(edge, median),
            { (self.signal)(edge, median) };
        let cosmic = |a: u64, b: u64, c: u64, d: u64, e: u64| -> (r: bool)
            ensures
                r == self.is_spike(a, b, c, d, e),
            { self.spike(a, b, c, d, e) };
        let r = despike(image, passes, &edge, &signal, &cosmic);
        proof {
            if r is Ok {
                self.lemma_passes(old(image), image, passes as nat, edge, signal, cosmic);
            }
        }
        r
    }

    /// Passes that were made with functions that compute the edge value,
    /// the signal and the decision are passes of spike removal.
    proof fn lemma_passes<
        L: Fn(u64, u64, u64, u64, u64) -> u64,
        G: Fn(u64, u64) -> u64,
        C: Fn(u64, u64, u64, u64, u64) -> bool,
    >(&self, before: &Grid, after: &Grid, passes: nat, edge: L, signal: G, cosmic: C)
        requires
            despiked(before, after, passes, edge, signal, cosmic),
            forall|c: u64, n: u64, s: u64, w: u64, e: u64, r: u64|
                call_ensures(edge, (c, n, s, w, e), r) ==> r == self.edge_value(c, n, s, w, e),
            forall|l: u64, m: u64, r: u64| call_ensures(signal, (l, m), r) ==> r == self.signal_of(l, m),
            forall|a: u64, b: u64, c: u64, d: u64, e: u64, r: bool|
                call_ensures(cosmic, (a, b, c, d, e), r) ==> r == self.is_spike(a, b, c, d, e),
        ensures
            self.spikes_removed(before, after, passes),
        decreases passes,
    {
        if passes > 0 {
            let mid = choose|mid: Grid|
                despiked(before, &mid, (passes - 1) as nat, edge, signal, cosmic) && #[trigger] despiked_once(
                    &mid,
                    after,
                    edge,
                    signal,
                    cosmic,
                );
            self.lemma_passes(before, &mid, (passes - 1) as nat, edge, signal, cosmic);
            let (edges, signals, flagged) = choose|edges: Grid, signals: Grid, flagged: Vec<Vec<bool>>| #[trigger]
                pass_made(&mid, after, &edges, &signals, &flagged, edge, signal, cosmic);
            assert(self.edges_of(&mid, &edges));
            assert(self.signals_of(&mid, &edges, &signals));
            assert forall|i: int, j: int| 0 <= i < mid.height() && 0 <= j < mid.width() implies #[trigger] after.at(i, j) == (
            if self.is_spike(
                signals.at(i, j),
                median_of(window(&signals, i, j, 5)),
                edges.at(i, j),
                repaired_sample(&mid, i, j),
                smooth_sample(&mid, i, j),
            ) {
                repaired_sample(&mid, i, j)
            } else {
                mid.at(i, j)
            }) by {
                assert(call_ensures(
                    cosmic,
                    (
                        signals.at(i, j),
                        median_of(window(&signals, i, j, 5)),
                        edges.at(i, j),
                        repaired_sample(&mid, i, j),
                        smooth_sample(&mid, i, j),
                    ),
                    flagged[i][j],
                ));
            }
            assert(self.spikes_repaired(&mid, after, &edges, &signals));
            assert(self.pass_removed(&mid, after));
        }
    }
}

} // verus!
