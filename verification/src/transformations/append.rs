use crate::dataset::Dataset;
use crate::error::Error;
use crate::grid::{joinable, joined, joined_height, joined_width, Grid};
use vstd::prelude::*;

verus! {

/// Joins a second dataset to the first.
pub struct AppendTransform {
    /// Where the second dataset comes from; the standard input if absent.
    pub filepath: Option<String>,
    /// The character that starts a comment line in that source.
    pub comment: char,
    /// The character that separates its columns.
    pub delimiter: char,
    /// Append the second dataset as further rows instead of further frames.
    pub horizontal: bool,
}

impl AppendTransform {
    /// The axis along which this transform joins: 0 adds rows, 1 adds frames.
    pub open spec fn axis(&self) -> usize {
        if self.horizontal { 0 } else { 1 }
    }

    /// Appends the comments of `other` to those of `dataset`, after a line
    /// break, and joins the matrix of `other` to that of `dataset`: below it
    /// when `horizontal` is set, to its right otherwise. When the two
    /// matrices do not fit together the result is `ShapeMismatch` and the
    /// matrix stays as it was; the comments are appended all the same.
    pub fn transform(&self, dataset: &mut Dataset, other: &Dataset) -> (r: Result<(), Error>)
        requires
            old(dataset).wf(),
            other.wf(),
        ensures
            final(dataset).wf(),
            final(dataset).log() == old(dataset).log(),
            final(dataset).comments() == old(dataset).comments() + "\n"@ + other.comments(),
            r is Ok <==> joinable(self.axis(), &old(dataset).grid(), &other.grid()),
            r is Ok ==> {
                &&& final(dataset).grid().height() == joined_height(self.axis(), &old(dataset).grid(), &other.grid())
                &&& final(dataset).grid().width() == joined_width(self.axis(), &old(dataset).grid(), &other.grid())
                &&& final(dataset).grid()@ == joined(self.axis(), &old(dataset).grid(), &other.grid())
            },
            r is Err ==> r->Err_0 == Error::ShapeMismatch && final(dataset).grid() == old(dataset).grid(),
    {
        dataset.append_comments("\n");
        dataset.append_comments(other.previous_comments());
        let axis: usize = if self.horizontal { 0 } else { 1 };
        match Grid::raw_concatenate(axis, dataset.data(), other.data()) {
            Ok(g) => {
                dataset.replace_grid(g);
                Ok(())
            },
            Err(_) => Err(Error::ShapeMismatch),
        }
    }
}

} // verus!
