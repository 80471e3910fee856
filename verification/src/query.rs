//! A search-and-replace rule: a literal substring or a regular expression
//! with a replacement template.

use vstd::prelude::*;

use crate::text::replace_all_spec;

verus! {

/// Whether a regular-expression pattern compiles.  Named for the result of
/// `regex::Regex::new`, which depends on the pattern text alone.
pub uninterp spec fn regex_valid(pattern: Seq<char>) -> bool;

/// The line with every non-overlapping leftmost match of the pattern replaced
/// by the template, capture-group back-references substituted.  Named for the
/// result of `regex::Regex::replace_all`, which depends on the pattern, the
/// line and the template alone.
pub uninterp spec fn regex_replaced(
    pattern: Seq<char>,
    line: Seq<char>,
    template: Seq<char>,
) -> Seq<char>;

/// Relies on `regex::Regex::new`: whether a pattern compiles is a function of
/// the pattern text alone.
#[verifier::external_body]
fn regex_is_valid(pattern: &str) -> (r: bool)
    ensures
        r == regex_valid(pattern@),
{
    regex::Regex::new(pattern).is_ok()
}

/// Relies on `regex::Regex::new` and `regex::Regex::replace_all`: on a pattern
/// that compiles, replacing every non-overlapping leftmost match and
/// substituting capture groups into the template is a function of the pattern,
/// the line and the template alone.
#[verifier::external_body]
fn regex_replace_line(pattern: &str, line: &str, template: &str) -> (r: String)
    requires
        regex_valid(pattern@),
    ensures
        r@ == regex_replaced(pattern@, line@, template@),
{
    let re = regex::Regex::new(pattern).unwrap();
    re.replace_all(line, template).into_owned()
}

/// What a query means: the two matching disciplines, over the characters of
/// the texts involved.
pub enum QueryModel {
    Substring { find: Seq<char>, replace: Seq<char> },
    Regex { pattern: Seq<char>, template: Seq<char> },
}

/// One immutable search-and-replace rule, applied line by line.
pub struct Query {
    is_regex: bool,
    pattern: String,
    replace: String,
}

impl View for Query {
    type V = QueryModel;

    closed spec fn view(&self) -> QueryModel {
        if self.is_regex {
            QueryModel::Regex { pattern: self.pattern@, template: self.replace@ }
        } else {
            QueryModel::Substring { find: self.pattern@, replace: self.replace@ }
        }
    }
}

impl Query {
    #[verifier::type_invariant]
    spec fn wf(self) -> bool {
        self.is_regex ==> regex_valid(self.pattern@)
    }
}

/// What applying a query to one line returns: the first-to-last replacement of
/// every occurrence for a substring query, the regular-expression replacement
/// for a regex query.
pub open spec fn query_apply(q: QueryModel, line: Seq<char>) -> Seq<char> {
    match q {
        QueryModel::Substring { find, replace } => replace_all_spec(line, find, replace),
        QueryModel::Regex { pattern, template } => regex_replaced(pattern, line, template),
    }
}

/// Builds a literal query: `find` is matched verbatim, regular-expression
/// metacharacters carry no meaning in it.
pub fn substring(find: &str, replace: &str) -> (q: Query)
    ensures
        q@ == (QueryModel::Substring { find: find@, replace: replace@ }),
{
    Query { is_regex: false, pattern: find.to_owned(), replace: replace.to_owned() }
}

/// Builds a regular-expression query from a pattern and a replacement
/// template; returns `None` exactly when the pattern does not compile.
pub fn from_regex(pattern: &str, template: &str) -> (r: Option<Query>)
    ensures
        r is Some <==> regex_valid(pattern@),
        r is Some ==> r.unwrap()@ == (QueryModel::Regex {
            pattern: pattern@,
            template: template@,
        }),
{
    if regex_is_valid(pattern) {
        Some(Query { is_regex: true, pattern: pattern.to_owned(), replace: template.to_owned() })
    } else {
        None
    }
}

/// The pattern actually compiled by [`regex_query`]: wrapped in a group
/// between word boundaries when `word` is set, the bare pattern otherwise.
pub open spec fn effective_pattern(pattern: Seq<char>, word: bool) -> Seq<char> {
    if word {
        "\\b("@ + pattern + ")\\b"@
    } else {
        pattern
    }
}

/// Builds a regular-expression query, anchoring the pattern on word
/// boundaries when `word` is set; returns `None` exactly when the resulting
/// pattern does not compile.
pub fn regex_query(pattern: &str, template: &str, word: bool) -> (r: Option<Query>)
    ensures
        r is Some <==> regex_valid(effective_pattern(pattern@, word)),
        r is Some ==> r.unwrap()@ == (QueryModel::Regex {
            pattern: effective_pattern(pattern@, word),
            template: template@,
        }),
{
    if word {
        let wrapped = String::from_str("\\b(").concat(pattern).concat(")\\b");
        from_regex(wrapped.as_str(), template)
    } else {
        from_regex(pattern, template)
    }
}

/// Applies a single query to one line; callers receive exactly
/// [`query_apply`] of the line.
pub fn apply_query(q: &Query, line: &str) -> (r: String)
    ensures
        r@ == query_apply(q@, line@),
{
    proof {
        use_type_invariant(q);
    }
    if q.is_regex {
        regex_replace_line(q.pattern.as_str(), line, q.replace.as_str())
    } else {
        crate::text::replace_all(line, q.pattern.as_str(), q.replace.as_str())
    }
}

} // verus!
