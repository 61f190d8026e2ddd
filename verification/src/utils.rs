use crate::error::Error;
use vstd::prelude::*;

verus! {

/// The bit pattern without its sign bit.
pub open spec fn magnitude(bits: u64) -> int {
    if bits >= 0x8000_0000_0000_0000 {
        bits - 0x8000_0000_0000_0000
    } else {
        bits as int
    }
}

/// Whether a sample stands for no number: all exponent bits are set and
/// the fraction is not zero.
pub open spec fn is_nan(bits: u64) -> bool {
    magnitude(bits) > 0x7ff0_0000_0000_0000
}

/// Where the number that a sample stands for lies among the numbers: the
/// two zeros lie at the same place, negative numbers below them, and
/// numbers of larger magnitude farther out.
pub open spec fn value_key(bits: u64) -> int {
    if bits >= 0x8000_0000_0000_0000 {
        -magnitude(bits)
    } else {
        magnitude(bits)
    }
}

/// Whether the number of `a` is smaller than that of `b`. Nothing is
/// smaller or larger than what is no number.
pub open spec fn less(a: u64, b: u64) -> bool {
    !is_nan(a) && !is_nan(b) && value_key(a) < value_key(b)
}

/// Whether the number of `a` is smaller than or equal to that of `b`.
pub open spec fn less_eq(a: u64, b: u64) -> bool {
    !is_nan(a) && !is_nan(b) && value_key(a) <= value_key(b)
}

/// Whether `a` and `b` stand for the same number. What is no number is not
/// even equal to itself.
pub open spec fn same_number(a: u64, b: u64) -> bool {
    !is_nan(a) && !is_nan(b) && value_key(a) == value_key(b)
}

/// Decides [`is_nan`].
pub fn sample_is_nan(bits: u64) -> (r: bool)
    ensures
        r == is_nan(bits),
{
    let top: u64 = 0x8000_0000_0000_0000;
    let m = if bits >= top { bits - top } else { bits };
    m > 0x7ff0_0000_0000_0000
}

/// The place of a number among the numbers, see [`value_key`].
fn key_of(bits: u64) -> (k: i128)
    ensures
        k == value_key(bits),
{
    let top: u64 = 0x8000_0000_0000_0000;
    if bits >= top {
        -((bits - top) as i128)
    } else {
        bits as i128
    }
}

/// Decides [`less`].
pub fn sample_lt(a: u64, b: u64) -> (r: bool)
    ensures
        r == less(a, b),
{
    !sample_is_nan(a) && !sample_is_nan(b) && key_of(a) < key_of(b)
}

/// Decides [`less_eq`].
pub fn sample_le(a: u64, b: u64) -> (r: bool)
    ensures
        r == less_eq(a, b),
{
    !sample_is_nan(a) && !sample_is_nan(b) && key_of(a) <= key_of(b)
}

/// Decides [`same_number`].
pub fn sample_eq(a: u64, b: u64) -> (r: bool)
    ensures
        r == same_number(a, b),
{
    !sample_is_nan(a) && !sample_is_nan(b) && key_of(a) == key_of(b)
}

/// The arithmetic that the routines of this module need on the numbers
/// that samples stand for.
pub struct Arithmetic<I, A, P, N> {
    /// A sample that stands for no number.
    pub nan: u64,
    /// The sample that stands for zero.
    pub zero: u64,
    /// Given `x`, `x0`, `x1`, `y0`, `y1`: the value at `x` of the straight
    /// line through `(x0, y0)` and `(x1, y1)`.
    pub lininterp: I,
    /// Given `x0`, `x1`, `y0`, `y1`: the area of the trapezoid below the
    /// straight line from `(x0, y0)` to `(x1, y1)`.
    pub singletrapz: A,
    /// The sum of two numbers.
    pub add: P,
    /// The number with the opposite sign.
    pub negate: N,
}

impl<
    I: Fn(u64, u64, u64, u64, u64) -> u64,
    A: Fn(u64, u64, u64, u64) -> u64,
    P: Fn(u64, u64) -> u64,
    N: Fn(u64) -> u64,
> Arithmetic<I, A, P, N> {
    /// Whether the arithmetic can be relied on: each operation takes any
    /// arguments, and always gives the same result for the same arguments.
    pub open spec fn lawful(&self) -> bool {
        &&& forall|x: u64, x0: u64, x1: u64, y0: u64, y1: u64| call_requires(self.lininterp, (x, x0, x1, y0, y1))
        &&& forall|x: u64, x0: u64, x1: u64, y0: u64, y1: u64, r: u64, s: u64|
            call_ensures(self.lininterp, (x, x0, x1, y0, y1), r) && call_ensures(self.lininterp, (x, x0, x1, y0, y1), s)
                ==> r == s
        &&& forall|x0: u64, x1: u64, y0: u64, y1: u64| call_requires(self.singletrapz, (x0, x1, y0, y1))
        &&& forall|x0: u64, x1: u64, y0: u64, y1: u64, r: u64, s: u64|
            call_ensures(self.singletrapz, (x0, x1, y0, y1), r) && call_ensures(self.singletrapz, (x0, x1, y0, y1), s) ==> r
                == s
        &&& forall|a: u64, b: u64| call_requires(self.add, (a, b))
        &&& forall|a: u64, b: u64, r: u64, s: u64|
            call_ensures(self.add, (a, b), r) && call_ensures(self.add, (a, b), s) ==> r == s
        &&& forall|a: u64| call_requires(self.negate, (a,))
        &&& forall|a: u64, r: u64, s: u64| call_ensures(self.negate, (a,), r) && call_ensures(self.negate, (a,), s) ==> r == s
    }

    /// What `lininterp` gives.
    pub open spec fn interpolated(&self, x: u64, x0: u64, x1: u64, y0: u64, y1: u64) -> u64 {
        choose|r: u64| call_ensures(self.lininterp, (x, x0, x1, y0, y1), r)
    }

    /// What `singletrapz` gives.
    pub open spec fn area(&self, x0: u64, x1: u64, y0: u64, y1: u64) -> u64 {
        choose|r: u64| call_ensures(self.singletrapz, (x0, x1, y0, y1), r)
    }

    /// What `add` gives.
    pub open spec fn sum(&self, a: u64, b: u64) -> u64 {
        choose|r: u64| call_ensures(self.add, (a, b), r)
    }

    /// What `negate` gives.
    pub open spec fn negated(&self, a: u64) -> u64 {
        choose|r: u64| call_ensures(self.negate, (a,), r)
    }

    /// Calls `lininterp`.
    fn interpolate(&self, x: u64, x0: u64, x1: u64, y0: u64, y1: u64) -> (r: u64)
        requires
            self.lawful(),
        ensures
            r == self.interpolated(x, x0, x1, y0, y1),
    {
        (self.lininterp)(x, x0, x1, y0, y1)
    }

    /// Calls `singletrapz`.
    fn trapezoid(&self, x0: u64, x1: u64, y0: u64, y1: u64) -> (r: u64)
        requires
            self.lawful(),
        ensures
            r == self.area(x0, x1, y0, y1),
    {
        (self.singletrapz)(x0, x1, y0, y1)
    }

    /// Calls `add`.
    pub(crate) fn plus(&self, a: u64, b: u64) -> (r: u64)
        requires
            self.lawful(),
        ensures
            r == self.sum(a, b),
    {
        (self.add)(a, b)
    }

    /// Calls `negate`.
    fn minus(&self, a: u64) -> (r: u64)
        requires
            self.lawful(),
        ensures
            r == self.negated(a),
    {
        (self.negate)(a)
    }

    /// The sum of the numbers of `values`, added up from zero in their
    /// order.
    pub open spec fn total(&self, values: Seq<u64>) -> u64
        decreases values.len(),
    {
        if values.len() == 0 {
            self.zero
        } else {
            self.sum(self.total(values.drop_last()), values.last())
        }
    }

    /// Adds up the numbers of `values`, see [`Self::total`].
    pub fn sum_of(&self, values: &Vec<u64>) -> (r: u64)
        requires
            self.lawful(),
        ensures
            r == self.total(values@),
    {
        let mut sum = self.zero;
        let mut i: usize = 0;
        while i < values.len()
            invariant
                i <= values.len(),
                self.lawful(),
                sum == self.total(values@.take(i as int)),
            decreases values.len() - i,
        {
            proof {
                assert(values@.take(i + 1).drop_last() =~= values@.take(i as int));
            }
            sum = self.plus(sum, values[i]);
            i += 1;
        }
        proof {
            assert(values@.take(values.len() as int) =~= values@);
        }
        sum
    }

    /// The mean of the numbers of `values`: what `over` makes of their sum
    /// and of how many they are.
    pub open spec fn mean_value<V: Fn(u64, usize) -> u64>(&self, values: Seq<u64>, over: V) -> u64 {
        choose|r: u64| #[trigger] call_ensures(over, (self.total(values), values.len() as usize), r)
    }

    /// Takes the mean of the numbers of `values`, see [`Self::mean_value`].
    pub fn mean<V: Fn(u64, usize) -> u64>(&self, values: &Vec<u64>, over: &V) -> (r: u64)
        requires
            self.lawful(),
            lawful_quotient(*over),
        ensures
            r == self.mean_value(values@, *over),
    {
        let sum = self.sum_of(values);
        over(sum, values.len())
    }

    /// Number of segments that `xs` and `ys` describe: one less than the
    /// number of points that have both an x- and a y-value.
    pub open spec fn segments(xs: Seq<u64>, ys: Seq<u64>) -> int {
        let points = if xs.len() <= ys.len() { xs.len() } else { ys.len() };
        if points == 0 { 0 } else { points - 1 }
    }

    /// The first segment from number `from` on, of the first `segments`
    /// segments of `xs`, that holds `xi`: it starts at or below `xi` and ends
    /// above it. `segments` if there is none.
    pub open spec fn first_segment(xs: Seq<u64>, segments: int, xi: u64, from: int) -> int
        decreases segments - from,
    {
        if from >= segments {
            segments
        } else if less_eq(xs[from], xi) && less(xi, xs[from + 1]) {
            from
        } else {
            Self::first_segment(xs, segments, xi, from + 1)
        }
    }

    /// The value at `xi` of the curve through the points `(xs, ys)`: on the
    /// first segment that holds `xi` the straight line through its ends;
    /// at the end of the last segment the last value; and no number where
    /// the curve is not defined.
    pub open spec fn resampled_at(&self, xs: Seq<u64>, ys: Seq<u64>, xi: u64) -> u64 {
        let n = Self::segments(xs, ys);
        let j = Self::first_segment(xs, n, xi, 0);
        if j < n {
            self.interpolated(xi, xs[j], xs[j + 1], ys[j], ys[j + 1])
        } else if n > 0 && same_number(xi, xs[n]) {
            ys[n]
        } else {
            self.nan
        }
    }

    /// The value of the curve through `(xs, ys)` at one position, see
    /// [`Self::resampled_at`].
    pub fn resample_at(&self, xs: &Vec<u64>, ys: &Vec<u64>, xi: u64) -> (r: u64)
        requires
            self.lawful(),
        ensures
            r == self.resampled_at(xs@, ys@, xi),
    {
        let points = if xs.len() <= ys.len() { xs.len() } else { ys.len() };
        let n: usize = if points == 0 { 0 } else { points - 1 };
        let mut j: usize = 0;
        while j < n
            invariant
                j <= n,
                self.lawful(),
                n == Self::segments(xs@, ys@),
                n < xs.len() || n == 0,
                n < ys.len() || n == 0,
                Self::first_segment(xs@, n as int, xi, 0) == Self::first_segment(xs@, n as int, xi, j as int),
            decreases n - j,
        {
            if sample_le(xs[j], xi) && sample_lt(xi, xs[j + 1]) {
                return self.interpolate(xi, xs[j], xs[j + 1], ys[j], ys[j + 1]);
            }
            j += 1;
        }
        if n > 0 && sample_eq(xi, xs[n]) {
            ys[n]
        } else {
            self.nan
        }
    }

    /// Brings the curve through the points `(xs, ys)` onto the x-values
    /// `grid`: for each of them the value of the curve there, which is no
    /// number outside the range of `xs`.
    pub fn linear_resample_array(&self, xs: &Vec<u64>, ys: &Vec<u64>, grid: &Vec<u64>) -> (r: Vec<u64>)
        requires
            self.lawful(),
        ensures
            r.len() == grid.len(),
            forall|p: int| 0 <= p < grid.len() ==> #[trigger] r[p] == self.resampled_at(xs@, ys@, grid[p]),
    {
        let mut out: Vec<u64> = Vec::new();
        let mut p: usize = 0;
        while p < grid.len()
            invariant
                p <= grid.len(),
                self.lawful(),
                out.len() == p,
                forall|q: int| 0 <= q < p ==> #[trigger] out[q] == self.resampled_at(xs@, ys@, grid[q]),
            decreases grid.len() - p,
        {
            out.push(self.resample_at(xs, ys, grid[p]));
            p += 1;
        }
        out
    }

    /// The area that is added up from segment `j` on: `left` and `right`
    /// are the ends of the window, `inside` says whether a segment before
    /// has reached into the window, and `so_far` is the area up to here.
    ///
    /// A segment that ends at or below `left` adds nothing. The first
    /// segment that reaches into the window is cut at `left` if it starts
    /// below it; a segment that reaches `right` is cut there and is the
    /// last. Where a segment is cut, its value is that of the straight line
    /// through its ends.
    pub open spec fn area_from(
        &self,
        x: Seq<u64>,
        y: Seq<u64>,
        j: int,
        left: u64,
        right: u64,
        inside: bool,
        so_far: u64,
    ) -> u64
        decreases x.len() - j,
    {
        if j < 1 || j >= x.len() {
            so_far
        } else if less_eq(x[j], left) {
            self.area_from(x, y, j + 1, left, right, inside, so_far)
        } else {
            let cut_left = !inside && less(x[j - 1], left);
            let x0 = if cut_left { left } else { x[j - 1] };
            let y0 = if cut_left { self.interpolated(left, x[j - 1], x[j], y[j - 1], y[j]) } else { y[j - 1] };
            let next_left = if !inside && !cut_left { x[j - 1] } else { left };
            let last = less_eq(right, x[j]);
            let x1 = if last { right } else { x[j] };
            let y1 = if last && !same_number(x[j], right) { self.interpolated(right, x0, x[j], y0, y[j]) } else { y[j] };
            let sum = self.sum(so_far, self.area(x0, x1, y0, y1));
            if last {
                sum
            } else {
                self.area_from(x, y, j + 1, next_left, right, true, sum)
            }
        }
    }

    /// The area from which the adding up starts: zero, or, with a local
    /// baseline, the negated area below the straight line between the
    /// values of the curve at the two ends of the window; nothing if the
    /// curve has no value at one of them.
    pub open spec fn starting_area(&self, x: Seq<u64>, y: Seq<u64>, left: u64, right: u64, local_baseline: bool) -> Option<u64> {
        if local_baseline {
            let y_left = self.resampled_at(x, y, left);
            let y_right = self.resampled_at(x, y, right);
            if is_nan(y_left) || is_nan(y_right) {
                None
            } else {
                Some(self.negated(self.area(left, right, y_left, y_right)))
            }
        } else {
            Some(self.zero)
        }
    }

    /// The integral of the curve through `(x, y)` over the window between
    /// `a` and `b`, by the trapezoidal rule, or why there is none:
    /// `ShapeMismatch` when `x` and `y` differ in length, `InsufficientData`
    /// when they hold fewer than two points, `DomainError` when the window
    /// lies outside the curve, or when a local baseline is asked for and the
    /// curve has no value at an end of the window.
    pub open spec fn integral(&self, x: Seq<u64>, y: Seq<u64>, a: u64, b: u64, local_baseline: bool) -> Result<u64, Error> {
        let left = if less(a, b) { a } else { b };
        let right = if less(a, b) { b } else { a };
        if x.len() != y.len() {
            Err(Error::ShapeMismatch)
        } else if x.len() < 2 {
            Err(Error::InsufficientData)
        } else if less_eq(right, x[0]) || less_eq(x[x.len() - 1], left) {
            Err(Error::DomainError)
        } else {
            match self.starting_area(x, y, left, right, local_baseline) {
                None => Err(Error::DomainError),
                Some(start) => Ok(self.area_from(x, y, 1, left, right, false, start)),
            }
        }
    }

    /// Integrates the curve through the points `(x, y)` over the window
    /// between `left` and `right` by the trapezoidal rule. The window is
    /// cut to the range of `x`; where an end of the window lies between two
    /// points, the curve is taken to be straight between them. With
    /// `local_baseline` the area below the straight line between the values
    /// at the two ends of the window is taken off.
    pub fn trapz(&self, x: &Vec<u64>, y: &Vec<u64>, left: u64, right: u64, local_baseline: bool) -> (r: Result<u64, Error>)
        requires
            self.lawful(),
        ensures
            r == self.integral(x@, y@, left, right, local_baseline),
    {
        let ghost whole = self.integral(x@, y@, left, right, local_baseline);
        let (mut lo, hi) = if sample_lt(left, right) { (left, right) } else { (right, left) };
        if x.len() != y.len() {
            return Err(Error::ShapeMismatch);
        }
        if x.len() < 2 {
            return Err(Error::InsufficientData);
        }
        let n = x.len() - 1;
        if sample_le(hi, x[0]) || sample_le(x[n], lo) {
            return Err(Error::DomainError);
        }
        let mut area: u64 = if local_baseline {
            let y_left = self.resample_at(x, y, lo);
            let y_right = self.resample_at(x, y, hi);
            if sample_is_nan(y_left) || sample_is_nan(y_right) {
                return Err(Error::DomainError);
            }
            let below = self.trapezoid(lo, hi, y_left, y_right);
            self.minus(below)
        } else {
            self.zero
        };
        proof {
            assert(self.starting_area(x@, y@, lo, hi, local_baseline) == Some(area));
            assert(whole == Ok::<u64, Error>(self.area_from(x@, y@, 1, lo, hi, false, area)));
        }
        let mut inside = false;
        let mut j: usize = 1;
        while j <= n
            invariant
                1 <= j <= n + 1,
                n + 1 == x.len(),
                x.len() == y.len(),
                self.lawful(),
                whole == self.integral(x@, y@, left, right, local_baseline),
                whole == Ok::<u64, Error>(self.area_from(x@, y@, j as int, lo, hi, inside, area)),
            decreases n + 1 - j,
        {
            let ghost here = self.area_from(x@, y@, j as int, lo, hi, inside, area);
            if sample_le(x[j], lo) {
                proof {
                    assert(here == self.area_from(x@, y@, j + 1, lo, hi, inside, area));
                }
                j += 1;
                continue;
            }
            let mut x0 = x[j - 1];
            let mut y0 = y[j - 1];
            let mut next_lo = lo;
            if !inside {
                if sample_lt(x0, lo) {
                    y0 = self.interpolate(lo, x0, x[j], y0, y[j]);
                    x0 = lo;
                } else {
                    next_lo = x0;
                }
            }
            let last = sample_le(hi, x[j]);
            let mut x1 = x[j];
            let mut y1 = y[j];
            if last {
                if !sample_eq(x1, hi) {
                    y1 = self.interpolate(hi, x0, x1, y0, y1);
                }
                x1 = hi;
            }
            let piece = self.trapezoid(x0, x1, y0, y1);
            let total = self.plus(area, piece);
            if last {
                proof {
                    assert(here == total);
                }
                return Ok(total);
            }
            proof {
                assert(here == self.area_from(x@, y@, j + 1, next_lo, hi, true, total));
            }
            area = total;
            lo = next_lo;
            inside = true;
            j += 1;
        }
        Ok(area)
    }
}

/// Whether `over` takes any sum and any count, and always gives the same
/// result for the same arguments.
pub open spec fn lawful_quotient<V: Fn(u64, usize) -> u64>(over: V) -> bool {
    &&& forall|sum: u64, count: usize| call_requires(over, (sum, count))
    &&& forall|sum: u64, count: usize, r: u64, s: u64|
        call_ensures(over, (sum, count), r) && call_ensures(over, (sum, count), s) ==> r == s
}

/// The index of the smallest of the first `upto` distances, and of the
/// first of them if several are the smallest; distances that are no
/// numbers are passed over.
pub open spec fn closest(distances: Seq<u64>, upto: int) -> Option<int>
    decreases upto,
{
    if upto <= 0 {
        None
    } else {
        let before = closest(distances, upto - 1);
        if is_nan(distances[upto - 1]) {
            before
        } else if before is Some && !less(distances[upto - 1], distances[before->Some_0]) {
            before
        } else {
            Some(upto - 1)
        }
    }
}

/// Whether `distance` takes any arguments and always gives the same result
/// for the same arguments.
pub open spec fn lawful_distance<D: Fn(u64, u64) -> u64>(distance: D) -> bool {
    &&& forall|a: u64, b: u64| call_requires(distance, (a, b))
    &&& forall|a: u64, b: u64, r: u64, s: u64|
        call_ensures(distance, (a, b), r) && call_ensures(distance, (a, b), s) ==> r == s
}

/// The distances of the samples `x` from `xi`, as `distance` gives them.
pub open spec fn distances_from<D: Fn(u64, u64) -> u64>(x: Seq<u64>, xi: u64, distance: D) -> Seq<u64> {
    Seq::new(x.len(), |i: int| choose|r: u64| call_ensures(distance, (x[i], xi), r))
}

/// The index of the sample of `x` that is closest to `xi`, where `distance`
/// gives the distance of two samples; the first such index if several are
/// as close. Samples whose distance is no number are passed over; if that
/// leaves none, there is no index.
pub fn nearest_index<D: Fn(u64, u64) -> u64>(x: &Vec<u64>, xi: u64, distance: &D) -> (r: Option<usize>)
    requires
        lawful_distance(*distance),
    ensures
        match r {
            Some(i) => closest(distances_from(x@, xi, *distance), x.len() as int) == Some(i as int),
            None => closest(distances_from(x@, xi, *distance), x.len() as int) == None::<int>,
        },
{
    let ghost all = distances_from(x@, xi, *distance);
    let mut best: Option<(usize, u64)> = None;
    let mut i: usize = 0;
    while i < x.len()
        invariant
            i <= x.len(),
            lawful_distance(*distance),
            all == distances_from(x@, xi, *distance),
            match best {
                Some((b, d)) => closest(all, i as int) == Some(b as int) && b < i && d == all[b as int],
                None => closest(all, i as int) == None::<int>,
            },
        decreases x.len() - i,
    {
        let d = distance(x[i], xi);
        proof {
            assert(d == all[i as int]);
        }
        if !sample_is_nan(d) {
            best = match best {
                Some((b, smallest)) => if sample_lt(d, smallest) { Some((i, d)) } else { Some((b, smallest)) },
                None => Some((i, d)),
            };
        }
        i += 1;
    }
    match best {
        Some((b, _)) => Some(b),
        None => None,
    }
}

} // verus!
