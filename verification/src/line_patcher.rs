//! Applies a single query to one line of text.

use vstd::prelude::*;

use crate::query::{apply_query, query_apply, Query};

verus! {

/// Wraps one line, without its trailing newline, for trial application of
/// queries; the wrapped line is never mutated.
pub struct LinePatcher {
    line: String,
}

impl View for LinePatcher {
    type V = Seq<char>;

    closed spec fn view(&self) -> Seq<char> {
        self.line@
    }
}

impl LinePatcher {
    /// Wraps a line; never fails.
    pub fn new(line: &str) -> (s: Self)
        ensures
            s@ == line@,
    {
        LinePatcher { line: line.to_owned() }
    }

    /// Applies exactly one query to the wrapped line and returns the result,
    /// identical to the line when the query does not match.  Pure: repeated
    /// calls with different queries each start from the original line.
    pub fn replace(&self, query: &Query) -> (r: String)
        ensures
            r@ == query_apply(query@, self@),
    {
        apply_query(query, self.line.as_str())
    }
}

} // verus!
