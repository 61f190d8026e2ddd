use crate::error::Error;
use crate::grid::{fits, matrix, shape_fits, Grid};
use vstd::prelude::*;
use vstd::string::*;

verus! {

/// The 0-based frames among the first `n` that a selection keeps, in
/// ascending order: frame `k` is kept when `picked` lists its 1-based number
/// `k + 1`, or, with `invert`, when it does not.
pub open spec fn kept_frames(n: nat, picked: Seq<usize>, invert: bool) -> Seq<int>
    decreases n,
{
    if n == 0 {
        Seq::empty()
    } else {
        let rest = kept_frames((n - 1) as nat, picked, invert);
        if picked.contains(n as usize) != invert {
            rest.push(n - 1)
        } else {
            rest
        }
    }
}

/// Whether `frame` is a valid 1-based frame number among `n` frames.
pub open spec fn frame_in_bounds(n: nat, frame: usize) -> bool {
    1 <= frame <= n
}

/// Whether every number in `picked` is a valid frame number among `n` frames.
pub open spec fn all_in_bounds(n: nat, picked: Seq<usize>) -> bool {
    forall|i: int| 0 <= i < picked.len() ==> frame_in_bounds(n, #[trigger] picked[i])
}

/// The position of the first number in `picked` that is no valid frame number.
pub open spec fn first_out_of_bounds(n: nat, picked: Seq<usize>) -> int
    recommends
        !all_in_bounds(n, picked),
{
    choose|i: int|
        0 <= i < picked.len() && !frame_in_bounds(n, #[trigger] picked[i]) && forall|j: int|
            0 <= j < i ==> frame_in_bounds(n, #[trigger] picked[j])
}

/// The matrix made of the frames `kept` of `g`, in that order: frame `p` of
/// the result has the two columns of frame `kept[p]` of `g`.
pub open spec fn frames_of(g: &Grid, kept: Seq<int>) -> Seq<Seq<u64>> {
    matrix(g.height(), 2 * kept.len(), |i: int, j: int| g.at(i, 2 * kept[j / 2] + j % 2))
}

/// What [`Dataset::select_frames`] returns for a dataset of `n` frames whose
/// matrix is `g`: the first invalid frame number is reported; a selection
/// that keeps nothing is refused; otherwise the kept frames are handed out.
pub open spec fn select_outcome(g: &Grid, n: nat, picked: Seq<usize>, invert: bool, r: Result<Grid, Error>) -> bool {
    let kept = kept_frames(n, picked, invert);
    if !all_in_bounds(n, picked) {
        r == Err::<Grid, Error>(Error::OutOfRange { frame: picked[first_out_of_bounds(n, picked)] })
    } else if kept.len() == 0 {
        r == Err::<Grid, Error>(Error::EmptySelection)
    } else {
        &&& r is Ok
        &&& r->Ok_0.height() == g.height()
        &&& r->Ok_0.width() == 2 * kept.len()
        &&& r->Ok_0@ == frames_of(g, kept)
    }
}

/// The kept frames are frames of the dataset, in strictly ascending order.
pub proof fn lemma_kept_frames_ascending(n: nat, picked: Seq<usize>, invert: bool)
    ensures
        kept_frames(n, picked, invert).len() <= n,
        forall|p: int| 0 <= p < kept_frames(n, picked, invert).len() ==> 0 <= #[trigger] kept_frames(n, picked, invert)[p] < n,
        forall|p: int, q: int|
            0 <= p < q < kept_frames(n, picked, invert).len() ==> kept_frames(n, picked, invert)[p] < kept_frames(
                n,
                picked,
                invert,
            )[q],
    decreases n,
{
    if n > 0 {
        lemma_kept_frames_ascending((n - 1) as nat, picked, invert);
    }
}

/// Frame `k` is kept exactly when its number is listed (or, inverted, is not).
pub proof fn lemma_kept_frames_contains(n: nat, picked: Seq<usize>, invert: bool, k: int)
    requires
        n <= usize::MAX,
    ensures
        kept_frames(n, picked, invert).contains(k) <==> 0 <= k < n && (picked.contains((k + 1) as usize) != invert),
    decreases n,
{
    if n > 0 {
        let rest = kept_frames((n - 1) as nat, picked, invert);
        lemma_kept_frames_contains((n - 1) as nat, picked, invert, k);
        if picked.contains(n as usize) != invert {
            let all = rest.push(n - 1);
            assert(all[all.len() - 1] == n - 1);
            if rest.contains(k) {
                let p = choose|p: int| 0 <= p < rest.len() && rest[p] == k;
                assert(all[p] == k);
            }
            if all.contains(k) {
                let p = choose|p: int| 0 <= p < all.len() && all[p] == k;
                if p < rest.len() {
                    assert(rest[p] == k);
                }
            }
        }
    }
}

/// A selection and its complement never keep the same frame, and together
/// they keep as many frames as there are.
pub proof fn lemma_kept_frames_complement(n: nat, picked: Seq<usize>)
    requires
        n <= usize::MAX,
    ensures
        kept_frames(n, picked, false).len() + kept_frames(n, picked, true).len() == n,
        forall|k: int|
            0 <= k < n ==> (#[trigger] kept_frames(n, picked, false).contains(k)) != kept_frames(n, picked, true).contains(
                k,
            ),
    decreases n,
{
    if n > 0 {
        lemma_kept_frames_complement((n - 1) as nat, picked);
    }
    assert forall|k: int| 0 <= k < n implies (#[trigger] kept_frames(n, picked, false).contains(k)) != kept_frames(
        n,
        picked,
        true,
    ).contains(k) by {
        lemma_kept_frames_contains(n, picked, false, k);
        lemma_kept_frames_contains(n, picked, true, k);
    }
}

/// Selecting some frames and selecting all but those frames splits a
/// dataset of `n` frames in two: each frame goes to exactly one of the two
/// selections, and where a selection yields a matrix, that matrix holds its
/// frames cell for cell, in the order they have in the dataset.
pub proof fn lemma_select_splits_dataset(
    g: &Grid,
    n: nat,
    picked: Seq<usize>,
    chosen: Result<Grid, Error>,
    others: Result<Grid, Error>,
)
    requires
        g.width() == 2 * n,
        n <= usize::MAX,
        select_outcome(g, n, picked, false, chosen),
        select_outcome(g, n, picked, true, others),
    ensures
        forall|k: int|
            0 <= k < n ==> (#[trigger] kept_frames(n, picked, false).contains(k)) != kept_frames(n, picked, true).contains(
                k,
            ),
        kept_frames(n, picked, false).len() + kept_frames(n, picked, true).len() == n,
        chosen is Ok ==> holds_frames(&chosen->Ok_0, g, kept_frames(n, picked, false)),
        others is Ok ==> holds_frames(&others->Ok_0, g, kept_frames(n, picked, true)),
{
    lemma_kept_frames_complement(n, picked);
    if chosen is Ok {
        let a = chosen->Ok_0;
        let kept = kept_frames(n, picked, false);
        assert forall|i: int, p: int, c: int| 0 <= i < g.height() && 0 <= p < kept.len() && 0 <= c < 2 implies #[trigger] a.at(
            i,
            2 * p + c,
        ) == g.at(i, 2 * kept[p] + c) by {
            assert(a@[i][2 * p + c] == a.at(i, 2 * p + c));
            assert((2 * p + c) / 2 == p && (2 * p + c) % 2 == c);
        }
    }
    if others is Ok {
        let b = others->Ok_0;
        let kept = kept_frames(n, picked, true);
        assert forall|i: int, p: int, c: int| 0 <= i < g.height() && 0 <= p < kept.len() && 0 <= c < 2 implies #[trigger] b.at(
            i,
            2 * p + c,
        ) == g.at(i, 2 * kept[p] + c) by {
            assert(b@[i][2 * p + c] == b.at(i, 2 * p + c));
            assert((2 * p + c) / 2 == p && (2 * p + c) % 2 == c);
        }
    }
}

/// Whether `part` consists of the frames `kept` of `whole`, in that order:
/// same rows, and column `c` of its frame `p` is column `c` of frame
/// `kept[p]` of `whole`.
pub open spec fn holds_frames(part: &Grid, whole: &Grid, kept: Seq<int>) -> bool {
    &&& part.height() == whole.height()
    &&& part.width() == 2 * kept.len()
    &&& forall|i: int, p: int, c: int|
        0 <= i < whole.height() && 0 <= p < kept.len() && 0 <= c < 2 ==> #[trigger] part.at(i, 2 * p + c) == whole.at(
            i,
            2 * kept[p] + c,
        )
}

/// Whether `x` occurs in `v`.
pub fn contains_number(v: &[usize], x: usize) -> (b: bool)
    ensures
        b == v@.contains(x),
{
    let mut i: usize = 0;
    while i < v.len()
        invariant
            i <= v.len(),
            forall|j: int| 0 <= j < i ==> v[j] != x,
        decreases v.len() - i,
    {
        if v[i] == x {
            return true;
        }
        i += 1;
    }
    false
}

/// The 0-based frames among the first `n` that an optional list of 1-based
/// targets stands for, ascending; no list stands for every frame.
pub open spec fn targeted_frames(n: nat, targets: Option<Vec<usize>>) -> Seq<int> {
    match targets {
        None => kept_frames(n, Seq::empty(), true),
        Some(list) => kept_frames(n, list@, false),
    }
}

/// What writing `values` into column `column` of frame `frame_no` does: an
/// invalid frame number or a wrong number of samples is refused and leaves
/// the dataset as it was; otherwise exactly that column is replaced.
pub open spec fn frame_write_outcome(
    before: &Dataset,
    after: &Dataset,
    frame_no: usize,
    column: int,
    values: Seq<u64>,
    r: Result<(), Error>,
) -> bool {
    let target = 2 * (frame_no - 1) + column;
    &&& after.log() == before.log()
    &&& after.comments() == before.comments()
    &&& after.grid().height() == before.grid().height()
    &&& after.grid().width() == before.grid().width()
    &&& if !frame_in_bounds(before.frames(), frame_no) {
        r == Err::<(), Error>(Error::OutOfRange { frame: frame_no })
    } else if values.len() != before.pixels() {
        r == Err::<(), Error>(Error::ShapeMismatch)
    } else {
        r is Ok
    }
    &&& forall|i: int, j: int|
        0 <= i < before.grid().height() && 0 <= j < before.grid().width() ==> #[trigger] after.grid().at(i, j) == (if r is Ok
            && j == target {
            values[i]
        } else {
            before.grid().at(i, j)
        })
}

/// Whether an optional list of 1-based targets stands for the 0-based
/// frame `k`; no list stands for every frame.
pub open spec fn targeted(targets: Option<Vec<usize>>, k: int) -> bool {
    match targets {
        None => true,
        Some(list) => exists|p: int| 0 <= p < list.len() && #[trigger] list[p] == k + 1,
    }
}

/// Whether `after` is `before` with each intensity of the targeted frames
/// replaced by what `f` made of the x-value beside it and of the intensity
/// itself, and with every other sample untouched.
pub open spec fn intensities_mapped<F: Fn(u64, u64) -> u64>(
    before: &Grid,
    after: &Grid,
    targets: Option<Vec<usize>>,
    f: F,
) -> bool {
    forall|i: int, j: int|
        0 <= i < before.height() && 0 <= j < before.width() ==> if j % 2 == 1 && targeted(targets, j / 2) {
            call_ensures(f, (before.at(i, j - 1), before.at(i, j)), #[trigger] after.at(i, j))
        } else {
            after.at(i, j) == before.at(i, j)
        }
}

/// Whether `after` is `before` with each x-value replaced by what `f` made
/// of it, and with every intensity untouched.
pub open spec fn axes_mapped<F: Fn(u64) -> u64>(before: &Grid, after: &Grid, f: F) -> bool {
    forall|i: int, j: int|
        0 <= i < before.height() && 0 <= j < before.width() ==> if j % 2 == 0 {
            call_ensures(f, (before.at(i, j),), #[trigger] after.at(i, j))
        } else {
            after.at(i, j) == before.at(i, j)
        }
}

/// Spectra as paired columns: column `2k` is the x-axis of frame `k + 1`,
/// column `2k + 1` its intensities. All frames share the row count.
pub struct Dataset {
    data: Grid,
    metadata: String,
    previous_comments: String,
}

impl Dataset {
    /// The invariant of a dataset: its columns come in pairs, and its shape
    /// is one that the matrix storage can represent.
    pub open spec fn wf(&self) -> bool {
        &&& self.grid().width() % 2 == 0
        &&& shape_fits(self.grid().height(), self.grid().width())
    }

    /// The matrix.
    pub closed spec fn grid(&self) -> Grid {
        self.data
    }

    /// The provenance log.
    pub closed spec fn log(&self) -> Seq<char> {
        self.metadata@
    }

    /// The comments taken over from earlier runs.
    pub closed spec fn comments(&self) -> Seq<char> {
        self.previous_comments@
    }

    /// Number of frames.
    pub open spec fn frames(&self) -> nat {
        self.grid().width() / 2
    }

    /// Number of rows (pixels).
    pub open spec fn pixels(&self) -> nat {
        self.grid().height()
    }

    /// The x-axis of the 0-based frame `k`.
    pub open spec fn xs(&self, k: int) -> Seq<u64> {
        self.grid().column(2 * k)
    }

    /// The intensities of the 0-based frame `k`.
    pub open spec fn ys(&self, k: int) -> Seq<u64> {
        self.grid().column(2 * k + 1)
    }

    /// Wraps a matrix and its texts. The matrix must have an even number of
    /// columns and a representable shape, else `ShapeMismatch`.
    pub fn new(data: Grid, metadata: String, previous_comments: String) -> (r: Result<Dataset, Error>)
        ensures
            r is Ok <==> data.width() % 2 == 0 && shape_fits(data.height(), data.width()),
            r is Ok ==> r->Ok_0.grid() == data && r->Ok_0.log() == metadata@ && r->Ok_0.comments()
                == previous_comments@,
            r is Err ==> r->Err_0 == Error::ShapeMismatch,
    {
        if data.cols() % 2 != 0 || !fits(data.rows(), data.cols()) {
            return Err(Error::ShapeMismatch);
        }
        Ok(Dataset { data, metadata, previous_comments })
    }

    /// Whether the invariant of a dataset holds of this one.
    pub fn is_valid(&self) -> (ok: bool)
        ensures
            ok == self.wf(),
    {
        self.data.cols() % 2 == 0 && fits(self.data.rows(), self.data.cols())
    }

    /// The matrix.
    pub fn data(&self) -> (g: &Grid)
        ensures
            *g == self.grid(),
    {
        &self.data
    }

    /// The provenance log.
    pub fn metadata(&self) -> (s: &str)
        ensures
            s@ == self.log(),
    {
        self.metadata.as_str()
    }

    /// The comments taken over from earlier runs.
    pub fn previous_comments(&self) -> (s: &str)
        ensures
            s@ == self.comments(),
    {
        self.previous_comments.as_str()
    }

    /// Number of frames.
    pub fn frame_count(&self) -> (n: usize)
        ensures
            n == self.frames(),
            2 * n <= usize::MAX,
            self.wf() ==> self.grid().width() == 2 * n,
    {
        self.data.cols() / 2
    }

    /// Number of rows.
    pub fn rows(&self) -> (n: usize)
        ensures
            n == self.pixels(),
    {
        self.data.rows()
    }
    /// Checks that `frame_no` names a frame of this dataset (counting from 1).
    pub fn verify_one_frame_in_bounds(&self, frame_no: usize) -> (r: Result<(), Error>)
        ensures
            r is Ok <==> frame_in_bounds(self.frames(), frame_no),
            r is Err ==> r->Err_0 == (Error::OutOfRange { frame: frame_no }),
    {
        if frame_no == 0 || frame_no - 1 >= self.data.cols() / 2 {
            return Err(Error::OutOfRange { frame: frame_no });
        }
        Ok(())
    }

    /// Checks that every number in `frames` names a frame of this dataset and
    /// reports the first that does not.
    pub fn verify_frames_in_bounds(&self, frames: &[usize]) -> (r: Result<(), Error>)
        ensures
            r is Ok <==> all_in_bounds(self.frames(), frames@),
            r is Err ==> r->Err_0 == (Error::OutOfRange {
                frame: frames@[first_out_of_bounds(self.frames(), frames@)],
            }),
    {
        let mut i: usize = 0;
        while i < frames.len()
            invariant
                i <= frames.len(),
                forall|j: int| 0 <= j < i ==> frame_in_bounds(self.frames(), #[trigger] frames@[j]),
            decreases frames.len() - i,
        {
            match self.verify_one_frame_in_bounds(frames[i]) {
                Ok(()) => {},
                Err(e) => {
                    proof {
                        let n = self.frames();
                        let c = first_out_of_bounds(n, frames@);
                        assert(!frame_in_bounds(n, frames@[i as int]));
                        assert(0 <= c < frames@.len() && !frame_in_bounds(n, frames@[c]) && forall|j: int|
                            0 <= j < c ==> frame_in_bounds(n, #[trigger] frames@[j]));
                        assert(c == i);
                    }
                    return Err(e);
                },
            }
            i += 1;
        }
        Ok(())
    }

    /// A fresh matrix with only the listed frames, or, with `invert`, with all
    /// but the listed frames; the frames keep the order they have here.
    pub fn select_frames(&self, frames: &[usize], invert: bool) -> (r: Result<Grid, Error>)
        requires
            self.wf(),
        ensures
            select_outcome(&self.grid(), self.frames(), frames@, invert, r),
    {
        match self.verify_frames_in_bounds(frames) {
            Ok(()) => {},
            Err(e) => {
                return Err(e);
            },
        }
        let n = self.frame_count();
        let mut picks: Vec<usize> = Vec::new();
        let mut k: usize = 0;
        while k < n
            invariant
                k <= n,
                n == self.frames(),
                self.grid().width() == 2 * n <= usize::MAX,
                picks.len() == 2 * kept_frames(k as nat, frames@, invert).len(),
                forall|j: int|
                    0 <= j < picks.len() ==> #[trigger] picks[j] == 2 * kept_frames(k as nat, frames@, invert)[j / 2] + j
                        % 2,
            decreases n - k,
        {
            proof {
                lemma_kept_frames_ascending(k as nat, frames@, invert);
                lemma_kept_frames_ascending((k + 1) as nat, frames@, invert);
            }
            if contains_number(frames, k + 1) != invert {
                picks.push(2 * k);
                picks.push(2 * k + 1);
            }
            k += 1;
        }
        let ghost kept = kept_frames(n as nat, frames@, invert);
        proof {
            lemma_kept_frames_ascending(n as nat, frames@, invert);
        }
        if picks.len() == 0 {
            return Err(Error::EmptySelection);
        }
        proof {
            let h = self.grid().height();
            let w = self.grid().width();
            let p = picks.len() as nat;
            assert(shape_fits(h, p)) by (nonlinear_arith)
                requires
                    shape_fits(h, w),
                    0 < p <= w,
            ;
            assert forall|j: int| 0 <= j < picks.len() implies picks[j] < self.grid().width() by {
                assert(0 <= kept[j / 2] < n);
            }
        }
        let g = self.data.raw_select_columns(&picks);
        proof {
            assert(g@ =~~= frames_of(&self.grid(), kept));
        }
        Ok(g)
    }
    /// Puts `g` in place of the matrix; the texts stay.
    pub(crate) fn replace_grid(&mut self, g: Grid)
        requires
            g.width() % 2 == 0,
            shape_fits(g.height(), g.width()),
        ensures
            final(self).grid() == g,
            final(self).log() == old(self).log(),
            final(self).comments() == old(self).comments(),
    {
        self.data = g;
    }

    /// Puts `g` in place of the matrix if it has an even number of columns
    /// and a representable shape; otherwise nothing changes and the result is
    /// `ShapeMismatch`.
    pub fn set_data(&mut self, g: Grid) -> (r: Result<(), Error>)
        ensures
            r is Ok <==> g.width() % 2 == 0 && shape_fits(g.height(), g.width()),
            r is Ok ==> final(self).grid() == g,
            r is Err ==> r->Err_0 == Error::ShapeMismatch && final(self).grid() == old(self).grid(),
            final(self).log() == old(self).log(),
            final(self).comments() == old(self).comments(),
    {
        if g.cols() % 2 != 0 || !fits(g.rows(), g.cols()) {
            return Err(Error::ShapeMismatch);
        }
        self.data = g;
        Ok(())
    }

    /// Appends `text` to the provenance log.
    pub fn append_metadata(&mut self, text: &str)
        ensures
            final(self).log() == old(self).log() + text@,
            final(self).grid() == old(self).grid(),
            final(self).comments() == old(self).comments(),
    {
        self.metadata.append(text);
    }

    /// Appends `text` to the comments of earlier runs.
    pub fn append_comments(&mut self, text: &str)
        ensures
            final(self).comments() == old(self).comments() + text@,
            final(self).grid() == old(self).grid(),
            final(self).log() == old(self).log(),
    {
        self.previous_comments.append(text);
    }

    /// The x-axis of frame `frame_no` (counting from 1).
    pub fn frame_x(&self, frame_no: usize) -> (r: Result<Vec<u64>, Error>)
        ensures
            r is Ok <==> frame_in_bounds(self.frames(), frame_no),
            r is Ok ==> r->Ok_0@ == self.xs(frame_no - 1),
            r is Err ==> r->Err_0 == (Error::OutOfRange { frame: frame_no }),
    {
        let frames = self.frame_count();
        if frame_no == 0 || frame_no > frames {
            return Err(Error::OutOfRange { frame: frame_no });
        }
        Ok(self.data.column_at(2 * (frame_no - 1)))
    }

    /// The intensities of frame `frame_no` (counting from 1).
    pub fn frame_y(&self, frame_no: usize) -> (r: Result<Vec<u64>, Error>)
        ensures
            r is Ok <==> frame_in_bounds(self.frames(), frame_no),
            r is Ok ==> r->Ok_0@ == self.ys(frame_no - 1),
            r is Err ==> r->Err_0 == (Error::OutOfRange { frame: frame_no }),
    {
        let frames = self.frame_count();
        if frame_no == 0 || frame_no > frames {
            return Err(Error::OutOfRange { frame: frame_no });
        }
        Ok(self.data.column_at(2 * (frame_no - 1) + 1))
    }

    /// Replaces column `column` (0 for the x-axis, 1 for the intensities) of
    /// frame `frame_no` by `values`, one sample per row.
    fn set_frame_column(&mut self, frame_no: usize, column: usize, values: &Vec<u64>) -> (r: Result<(), Error>)
        requires
            column < 2,
        ensures
            frame_write_outcome(old(self), final(self), frame_no, column as int, values@, r),
    {
        let frames = self.frame_count();
        if frame_no == 0 || frame_no > frames {
            return Err(Error::OutOfRange { frame: frame_no });
        }
        if self.data.set_column(2 * (frame_no - 1) + column, values) {
            Ok(())
        } else {
            Err(Error::ShapeMismatch)
        }
    }

    /// Replaces the x-axis of frame `frame_no` (counting from 1) by `values`.
    /// Every other column is kept, and so are the texts.
    pub fn set_frame_x(&mut self, frame_no: usize, values: &Vec<u64>) -> (r: Result<(), Error>)
        ensures
            frame_write_outcome(old(self), final(self), frame_no, 0, values@, r),
    {
        self.set_frame_column(frame_no, 0, values)
    }

    /// Replaces the intensities of frame `frame_no` (counting from 1) by
    /// `values`. Every other column is kept, and so are the texts.
    pub fn set_frame_y(&mut self, frame_no: usize, values: &Vec<u64>) -> (r: Result<(), Error>)
        ensures
            frame_write_outcome(old(self), final(self), frame_no, 1, values@, r),
    {
        self.set_frame_column(frame_no, 1, values)
    }

    /// The frames that an optional list of targets stands for, as ascending
    /// 1-based numbers: every frame when there is no list, else each frame
    /// of the dataset that the list names.
    pub fn selected_frames(&self, targets: &Option<Vec<usize>>) -> (r: Vec<usize>)
        ensures
            r@.map_values(|f: usize| f - 1) == targeted_frames(self.frames(), *targets),
            forall|p: int| 0 <= p < r.len() ==> frame_in_bounds(self.frames(), #[trigger] r[p]),
    {
        let n = self.frame_count();
        let mut out: Vec<usize> = Vec::new();
        let mut k: usize = 0;
        while k < n
            invariant
                k <= n,
                n == self.frames(),
                2 * n <= usize::MAX,
                out@.map_values(|f: usize| f - 1) == targeted_frames(k as nat, *targets),
                forall|p: int| 0 <= p < out.len() ==> frame_in_bounds(n as nat, #[trigger] out[p]),
            decreases n - k,
        {
            let take = match targets {
                None => true,
                Some(list) => contains_number(list.as_slice(), k + 1),
            };
            if take {
                proof {
                    assert(out@.push((k + 1) as usize).map_values(|f: usize| f - 1) =~= out@.map_values(
                        |f: usize| f - 1,
                    ).push(k as int));
                }
                out.push(k + 1);
            }
            k += 1;
        }
        out
    }
    /// The intensities alone, one column per frame.
    pub fn intensities(&self) -> (g: Grid)
        requires
            self.wf(),
        ensures
            g.height() == self.pixels(),
            g.width() == self.frames(),
            forall|i: int, k: int|
                0 <= i < self.pixels() && 0 <= k < self.frames() ==> #[trigger] g.at(i, k) == self.grid().at(i, 2 * k + 1),
    {
        let n = self.frame_count();
        let mut picks: Vec<usize> = Vec::new();
        let mut k: usize = 0;
        while k < n
            invariant
                k <= n,
                2 * n <= usize::MAX,
                picks.len() == k,
                forall|p: int| 0 <= p < k ==> #[trigger] picks[p] == 2 * p + 1,
            decreases n - k,
        {
            picks.push(2 * k + 1);
            k += 1;
        }
        proof {
            let h = self.grid().height();
            let w = self.grid().width();
            assert(shape_fits(h, n as nat)) by (nonlinear_arith)
                requires
                    shape_fits(h, w),
                    w == 2 * n,
            ;
        }
        let g = self.data.raw_select_columns(&picks);
        proof {
            assert forall|i: int, k: int| 0 <= i < self.pixels() && 0 <= k < self.frames() implies #[trigger] g.at(i, k)
                == self.grid().at(i, 2 * k + 1) by {
                assert(g@[i][k] == g.at(i, k));
            }
        }
        g
    }

    /// Puts `values`, one column per frame, in place of the intensities.
    /// The x-axes and the texts stay. Refused with `ShapeMismatch`, and
    /// nothing changes, unless `values` has one row per pixel and one column
    /// per frame.
    pub fn set_intensities(&mut self, values: &Grid) -> (r: Result<(), Error>)
        ensures
            final(self).log() == old(self).log(),
            final(self).comments() == old(self).comments(),
            final(self).grid().height() == old(self).grid().height(),
            final(self).grid().width() == old(self).grid().width(),
            r is Ok <==> values.height() == old(self).pixels() && values.width() == old(self).frames(),
            r is Err ==> r->Err_0 == Error::ShapeMismatch,
            forall|i: int, j: int|
                0 <= i < old(self).grid().height() && 0 <= j < old(self).grid().width() ==> #[trigger] final(self).grid().at(i, j)
                    == (if r is Ok && j % 2 == 1 {
                    values.at(i, j / 2)
                } else {
                    old(self).grid().at(i, j)
                }),
    {
        let h = self.data.rows();
        let n = self.frame_count();
        if values.rows() != h || values.cols() != n {
            return Err(Error::ShapeMismatch);
        }
        let mut k: usize = 0;
        while k < n
            invariant
                k <= n,
                n == old(self).frames(),
                2 * n <= usize::MAX,
                h == old(self).grid().height(),
                values.height() == h,
                values.width() == n,
                self.log() == old(self).log(),
                self.comments() == old(self).comments(),
                self.grid().height() == old(self).grid().height(),
                self.grid().width() == old(self).grid().width(),
                forall|i: int, j: int|
                    0 <= i < old(self).grid().height() && 0 <= j < old(self).grid().width() ==> #[trigger] self.grid().at(i, j)
                        == (if j % 2 == 1 && j / 2 < k {
                        values.at(i, j / 2)
                    } else {
                        old(self).grid().at(i, j)
                    }),
            decreases n - k,
        {
            let mut i: usize = 0;
            while i < h
                invariant
                    k < n,
                    i <= h,
                    n == old(self).frames(),
                    2 * n <= usize::MAX,
                    h == old(self).grid().height(),
                    values.height() == h,
                    values.width() == n,
                    self.log() == old(self).log(),
                    self.comments() == old(self).comments(),
                    self.grid().height() == old(self).grid().height(),
                    self.grid().width() == old(self).grid().width(),
                    forall|a: int, j: int|
                        0 <= a < old(self).grid().height() && 0 <= j < old(self).grid().width() ==> #[trigger] self.grid().at(a, j)
                            == (if j % 2 == 1 && (j / 2 < k || (j / 2 == k && a < i)) {
                            values.at(a, j / 2)
                        } else {
                            old(self).grid().at(a, j)
                        }),
                decreases h - i,
            {
                let v = values.raw_get(i, k);
                self.data.put(i, 2 * k + 1, v);
                i += 1;
            }
            k += 1;
        }
        Ok(())
    }
    /// Overwrites one sample of the matrix.
    pub(crate) fn put(&mut self, i: usize, j: usize, v: u64)
        requires
            i < old(self).grid().height(),
            j < old(self).grid().width(),
        ensures
            final(self).log() == old(self).log(),
            final(self).comments() == old(self).comments(),
            final(self).grid().height() == old(self).grid().height(),
            final(self).grid().width() == old(self).grid().width(),
            forall|a: int, b: int|
                0 <= a < old(self).grid().height() && 0 <= b < old(self).grid().width() ==> #[trigger] final(self).grid().at(a, b)
                    == (if a == i && b == j {
                    v
                } else {
                    old(self).grid().at(a, b)
                }),
    {
        self.data.put(i, j, v);
    }
    /// Adds a frame behind the last one, with `xs` as its x-axis and `ys` as
    /// its intensities. Refused with `ShapeMismatch`, and nothing changes,
    /// unless both have one sample per row and the wider matrix can be held.
    pub fn push_frame(&mut self, xs: &Vec<u64>, ys: &Vec<u64>) -> (r: Result<(), Error>)
        requires
            old(self).wf(),
        ensures
            final(self).wf(),
            final(self).log() == old(self).log(),
            final(self).comments() == old(self).comments(),
            final(self).grid().height() == old(self).grid().height(),
            r is Ok <==> xs.len() == old(self).pixels() && ys.len() == old(self).pixels() && shape_fits(
                old(self).pixels(),
                old(self).grid().width() + 2,
            ),
            r is Err ==> r->Err_0 == Error::ShapeMismatch && final(self).grid() == old(self).grid(),
            r is Ok ==> {
                &&& final(self).grid().width() == old(self).grid().width() + 2
                &&& forall|i: int, j: int|
                    0 <= i < old(self).grid().height() && 0 <= j < old(self).grid().width() ==> #[trigger] final(self).grid().at(
                        i,
                        j,
                    ) == old(self).grid().at(i, j)
                &&& final(self).xs(old(self).frames() as int) == xs@
                &&& final(self).ys(old(self).frames() as int) == ys@
            },
    {
        let h = self.data.rows();
        let w = self.data.cols();
        if xs.len() != h || ys.len() != h {
            return Err(Error::ShapeMismatch);
        }
        if w > usize::MAX - 2 {
            proof {
                assert(!shape_fits(h as nat, (w + 2) as nat)) by (nonlinear_arith)
                    requires
                        w + 2 > isize::MAX,
                ;
            }
            return Err(Error::ShapeMismatch);
        }
        if !fits(h, w + 2) {
            return Err(Error::ShapeMismatch);
        }
        proof {
            assert(shape_fits(h as nat, 2)) by (nonlinear_arith)
                requires
                    shape_fits(h as nat, (w + 2) as nat),
            ;
        }
        let mut frame = Grid::raw_filled(h, 2, 0);
        frame.set_column(0, xs);
        frame.set_column(1, ys);
        match Grid::raw_concatenate(1, &self.data, &frame) {
            Ok(g) => {
                proof {
                    let before = self.grid();
                    assert forall|i: int, j: int| 0 <= i < h && 0 <= j < w + 2 implies #[trigger] g.at(i, j) == (if j < w {
                        before.at(i, j)
                    } else {
                        frame.at(i, j - w)
                    }) by {
                        assert(g@[i][j] == g.at(i, j));
                    }
                    assert(g.column(w as int) =~= xs@);
                    assert(g.column(w + 1) =~= ys@);
                }
                self.data = g;
                Ok(())
            },
            Err(_) => Err(Error::ShapeMismatch),
        }
    }
    /// Whether `targets` stands for the frame with the 1-based number
    /// `frame_no`.
    pub(crate) fn is_target(targets: &Option<Vec<usize>>, frame_no: usize) -> (b: bool)
        requires
            frame_no > 0,
        ensures
            b == targeted(*targets, frame_no - 1),
    {
        match targets {
            None => true,
            Some(list) => {
                let found = contains_number(list.as_slice(), frame_no);
                proof {
                    if found {
                        let p = choose|p: int| 0 <= p < list@.len() && list@[p] == frame_no;
                        assert(list[p] == frame_no - 1 + 1);
                    }
                }
                found
            },
        }
    }

    /// Replaces each intensity of the targeted frames by what `f` makes of
    /// the x-value in the same row and of the intensity itself. Without
    /// targets every frame is treated; targets that name no frame have no
    /// effect. X-values, other frames and the texts stay.
    pub fn map_intensities<F: Fn(u64, u64) -> u64>(&mut self, targets: &Option<Vec<usize>>, f: F)
        requires
            forall|x: u64, y: u64| call_requires(f, (x, y)),
        ensures
            final(self).log() == old(self).log(),
            final(self).comments() == old(self).comments(),
            final(self).grid().height() == old(self).grid().height(),
            final(self).grid().width() == old(self).grid().width(),
            intensities_mapped(&old(self).grid(), &final(self).grid(), *targets, f),
    {
        let h = self.data.rows();
        let n = self.frame_count();
        let ghost before = self.grid();
        let mut k: usize = 0;
        while k < n
            invariant
                k <= n,
                n == before.width() / 2,
                2 * n <= usize::MAX,
                h == before.height(),
                before == old(self).grid(),
                self.log() == old(self).log(),
                self.comments() == old(self).comments(),
                self.grid().height() == before.height(),
                self.grid().width() == before.width(),
                forall|x: u64, y: u64| call_requires(f, (x, y)),
                forall|i: int, j: int|
                    0 <= i < before.height() && 0 <= j < before.width() ==> if j % 2 == 1 && j / 2 < k && targeted(
                        *targets,
                        j / 2,
                    ) {
                        call_ensures(f, (before.at(i, j - 1), before.at(i, j)), #[trigger] self.grid().at(i, j))
                    } else {
                        self.grid().at(i, j) == before.at(i, j)
                    },
            decreases n - k,
        {
            if Self::is_target(targets, k + 1) {
                let mut i: usize = 0;
                while i < h
                    invariant
                        k < n,
                        i <= h,
                        n == before.width() / 2,
                        2 * n <= usize::MAX,
                        h == before.height(),
                        before == old(self).grid(),
                        targeted(*targets, k as int),
                        self.log() == old(self).log(),
                        self.comments() == old(self).comments(),
                        self.grid().height() == before.height(),
                        self.grid().width() == before.width(),
                        forall|x: u64, y: u64| call_requires(f, (x, y)),
                        forall|a: int, j: int|
                            0 <= a < before.height() && 0 <= j < before.width() ==> if j % 2 == 1 && (j / 2 < k || (j / 2
                                == k && a < i)) && targeted(*targets, j / 2) {
                                call_ensures(f, (before.at(a, j - 1), before.at(a, j)), #[trigger] self.grid().at(a, j))
                            } else {
                                self.grid().at(a, j) == before.at(a, j)
                            },
                    decreases h - i,
                {
                    let x = self.data.raw_get(i, 2 * k);
                    let y = self.data.raw_get(i, 2 * k + 1);
                    let v = f(x, y);
                    self.data.put(i, 2 * k + 1, v);
                    i += 1;
                }
            }
            k += 1;
        }
    }

    /// Replaces each x-value by what `f` makes of it. Intensities and texts
    /// stay.
    pub fn map_axes<F: Fn(u64) -> u64>(&mut self, f: F)
        requires
            forall|x: u64| call_requires(f, (x,)),
        ensures
            final(self).log() == old(self).log(),
            final(self).comments() == old(self).comments(),
            final(self).grid().height() == old(self).grid().height(),
            final(self).grid().width() == old(self).grid().width(),
            axes_mapped(&old(self).grid(), &final(self).grid(), f),
    {
        let h = self.data.rows();
        let w = self.data.cols();
        let ghost before = self.grid();
        let mut j: usize = 0;
        while j < w
            invariant
                j <= w,
                h == before.height(),
                w == before.width(),
                before == old(self).grid(),
                self.log() == old(self).log(),
                self.comments() == old(self).comments(),
                self.grid().height() == before.height(),
                self.grid().width() == before.width(),
                forall|x: u64| call_requires(f, (x,)),
                forall|i: int, b: int|
                    0 <= i < before.height() && 0 <= b < before.width() ==> if b % 2 == 0 && b < j {
                        call_ensures(f, (before.at(i, b),), #[trigger] self.grid().at(i, b))
                    } else {
                        self.grid().at(i, b) == before.at(i, b)
                    },
            decreases w - j,
        {
            if j % 2 == 0 {
                let mut i: usize = 0;
                while i < h
                    invariant
                        j < w,
                        j % 2 == 0,
                        i <= h,
                        h == before.height(),
                        w == before.width(),
                        before == old(self).grid(),
                        self.log() == old(self).log(),
                        self.comments() == old(self).comments(),
                        self.grid().height() == before.height(),
                        self.grid().width() == before.width(),
                        forall|x: u64| call_requires(f, (x,)),
                        forall|a: int, b: int|
                            0 <= a < before.height() && 0 <= b < before.width() ==> if b % 2 == 0 && (b < j || (b == j
                                && a < i)) {
                                call_ensures(f, (before.at(a, b),), #[trigger] self.grid().at(a, b))
                            } else {
                                self.grid().at(a, b) == before.at(a, b)
                            },
                    decreases h - i,
                {
                    let x = self.data.raw_get(i, j);
                    let v = f(x);
                    self.data.put(i, j, v);
                    i += 1;
                }
            }
            j += 1;
        }
    }
}

impl Default for Dataset {
    /// A dataset without rows, frames or texts.
    fn default() -> (d: Dataset)
        ensures
            d.wf(),
            d.grid().height() == 0,
            d.grid().width() == 0,
            d.log() == Seq::<char>::empty(),
            d.comments() == Seq::<char>::empty(),
    {
        Dataset { data: Grid::raw_filled(0, 0, 0), metadata: String::new(), previous_comments: String::new() }
    }
}

} // verus!
