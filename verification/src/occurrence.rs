//! Reported matches.
//!
//! An `Occurrence` is a single reported match: either the keyword was
//! found in a file or directory name, or it was found inside a file's
//! contents at a particular zero-based line.

use vstd::prelude::*;

verus! {

/// A single reported match, collected into a flat ordered list by the
/// walk.
#[derive(Debug, Clone)]
pub enum Occurrence {
    /// The keyword occurs in the base name of a file or directory.
    FileName { matching_text: String, path: String },
    /// The keyword occurs in a file's contents, starting on the given
    /// zero-based line.
    FileContent { matching_text: String, path: String, line_number: usize },
}

/// The mathematical value of an `Occurrence`: the same tagged pair, over
/// character sequences and unbounded integers.
pub enum OccurrenceView {
    FileName { matching_text: Seq<char>, path: Seq<char> },
    FileContent { matching_text: Seq<char>, path: Seq<char>, line_number: nat },
}

impl View for Occurrence {
    type V = OccurrenceView;

    open spec fn view(&self) -> OccurrenceView {
        match self {
            Occurrence::FileName { matching_text, path } => OccurrenceView::FileName {
                matching_text: matching_text@,
                path: path@,
            },
            Occurrence::FileContent { matching_text, path, line_number } => (
            OccurrenceView::FileContent {
                matching_text: matching_text@,
                path: path@,
                line_number: *line_number as nat,
            }),
        }
    }
}

/// The views of a sequence of occurrences, element by element.
pub open spec fn views_of(s: Seq<Occurrence>) -> Seq<OccurrenceView> {
    s.map_values(|o: Occurrence| o.view())
}

/// Pushing an occurrence appends its view.
pub proof fn lemma_views_of_push(s: Seq<Occurrence>, o: Occurrence)
    ensures
        views_of(s.push(o)) == views_of(s).push(o@),
{
    assert(views_of(s.push(o)) =~= views_of(s).push(o@));
}

/// Concatenating occurrence sequences concatenates their views.
pub proof fn lemma_views_of_add(s: Seq<Occurrence>, t: Seq<Occurrence>)
    ensures
        views_of(s + t) == views_of(s) + views_of(t),
{
    assert(views_of(s + t) =~= views_of(s) + views_of(t));
}

} // verus!
