//! Applies an ordered list of queries to every line of a file's contents,
//! first matching query wins, and records each changed line.

use vstd::prelude::*;
use vstd::utf8::{decode_utf8, valid_utf8};

use crate::line_patcher::LinePatcher;
use crate::lines::{byte_views, split_lines, split_on_newline, decode_line};
use crate::query::{query_apply, Query, QueryModel};

verus! {

/// Why patching a file's contents was abandoned: a line held bytes that are
/// not valid text.
#[derive(Debug, PartialEq, Eq)]
pub enum PatchError {
    InvalidData,
}

/// One changed line: its 1-based line number, its original text and its
/// patched text.  A replacement is recorded only when the two differ.
#[derive(Debug, PartialEq, Eq)]
pub struct Replacement {
    pub line_no: usize,
    pub old: String,
    pub new: String,
}

/// What a replacement records, over the characters of the two lines.
pub struct ReplacementModel {
    pub line_no: int,
    pub old: Seq<char>,
    pub new: Seq<char>,
}

impl View for Replacement {
    type V = ReplacementModel;

    open spec fn view(&self) -> ReplacementModel {
        ReplacementModel { line_no: self.line_no as int, old: self.old@, new: self.new@ }
    }
}

/// The views of a sequence of queries.
pub open spec fn query_views(qs: Seq<Query>) -> Seq<QueryModel> {
    qs.map_values(|q: Query| q@)
}

/// The views of a sequence of replacements.
pub open spec fn replacement_views(rs: Seq<Replacement>) -> Seq<ReplacementModel> {
    rs.map_values(|r: Replacement| r@)
}

/// The text of each line, decoded as UTF-8.
pub open spec fn decoded_lines(chunks: Seq<Seq<u8>>) -> Seq<Seq<char>> {
    chunks.map_values(|c: Seq<u8>| decode_utf8(c))
}

/// Every line's bytes are valid UTF-8.
pub open spec fn all_lines_valid(chunks: Seq<Seq<u8>>) -> bool {
    forall|i: int| 0 <= i < chunks.len() ==> valid_utf8(chunks[i])
}

/// The result of trying the queries on a line in order: the first query that
/// changes the line decides, later queries are never consulted; when none
/// changes it, the line stays as it was.
pub open spec fn apply_first(qs: Seq<QueryModel>, line: Seq<char>) -> Seq<char>
    decreases qs.len(),
{
    if qs.len() == 0 {
        line
    } else if query_apply(qs[0], line) != line {
        query_apply(qs[0], line)
    } else {
        apply_first(qs.skip(1), line)
    }
}

/// Whether some query changes the line.
pub open spec fn line_changed(qs: Seq<QueryModel>, line: Seq<char>) -> bool {
    apply_first(qs, line) != line
}

/// The whole patched output: every line after [`apply_first`], each followed
/// by exactly one newline, whatever the source's trailing-newline state was.
pub open spec fn patched_contents(qs: Seq<QueryModel>, lines: Seq<Seq<char>>) -> Seq<char>
    decreases lines.len(),
{
    if lines.len() == 0 {
        Seq::empty()
    } else {
        apply_first(qs, lines[0]) + seq!['\n'] + patched_contents(qs, lines.skip(1))
    }
}

/// The lines unchanged, each followed by exactly one newline.
pub open spec fn joined_lines(lines: Seq<Seq<char>>) -> Seq<char>
    decreases lines.len(),
{
    if lines.len() == 0 {
        Seq::empty()
    } else {
        lines[0] + seq!['\n'] + joined_lines(lines.skip(1))
    }
}

/// The replacements recorded while patching `lines`, the first line numbered
/// `first_no`: one record per changed line, in the order the lines stand.
pub open spec fn replacements_from(
    qs: Seq<QueryModel>,
    lines: Seq<Seq<char>>,
    first_no: int,
) -> Seq<ReplacementModel>
    decreases lines.len(),
{
    if lines.len() == 0 {
        Seq::empty()
    } else {
        let rest = replacements_from(qs, lines.skip(1), first_no + 1);
        if line_changed(qs, lines[0]) {
            seq![
                ReplacementModel {
                    line_no: first_no,
                    old: lines[0],
                    new: apply_first(qs, lines[0]),
                },
            ] + rest
        } else {
            rest
        }
    }
}

/// When the first `i` queries leave the line unchanged, the remaining queries
/// alone decide the result.
proof fn lemma_apply_first_skip(qs: Seq<QueryModel>, line: Seq<char>, i: int)
    requires
        0 <= i <= qs.len(),
        forall|j: int| 0 <= j < i ==> query_apply(qs[j], line) == line,
    ensures
        apply_first(qs, line) == apply_first(qs.skip(i), line),
    decreases i,
{
    if i > 0 {
        assert(query_apply(qs[0], line) == line);
        assert(forall|j: int| 0 <= j < i - 1 ==> qs.skip(1)[j] == qs[j + 1]);
        lemma_apply_first_skip(qs.skip(1), line, i - 1);
        assert(qs.skip(1).skip(i - 1) =~= qs.skip(i));
    } else {
        assert(qs.skip(0) =~= qs);
    }
}

/// First match wins: when the queries before `i` leave the line unchanged and
/// query `i` changes it, the applied result is query `i`'s result, whatever
/// the queries after it would have done.
pub proof fn lemma_first_match_wins(qs: Seq<QueryModel>, line: Seq<char>, i: int)
    requires
        0 <= i < qs.len(),
        forall|j: int| 0 <= j < i ==> query_apply(qs[j], line) == line,
        query_apply(qs[i], line) != line,
    ensures
        apply_first(qs, line) == query_apply(qs[i], line),
{
    lemma_apply_first_skip(qs, line, i);
    assert(qs.skip(i)[0] == qs[i]);
}

/// Appending one line extends the patched output by that line's patched text
/// and a newline.
proof fn lemma_patched_contents_push(qs: Seq<QueryModel>, lines: Seq<Seq<char>>, l: Seq<char>)
    ensures
        patched_contents(qs, lines.push(l)) == patched_contents(qs, lines) + apply_first(qs, l)
            + seq!['\n'],
    decreases lines.len(),
{
    if lines.len() == 0 {
        assert(lines.push(l).len() == 1);
        assert(lines.push(l)[0] == l);
        assert(lines.push(l).skip(1) =~= Seq::<Seq<char>>::empty());
        assert(patched_contents(qs, lines.push(l).skip(1)) == Seq::<char>::empty());
        assert(patched_contents(qs, lines) == Seq::<char>::empty());
        assert(patched_contents(qs, lines.push(l)) =~= patched_contents(qs, lines) + apply_first(
            qs,
            l,
        ) + seq!['\n']);
    } else {
        assert(lines.push(l)[0] == lines[0]);
        assert(lines.push(l).skip(1) =~= lines.skip(1).push(l));
        lemma_patched_contents_push(qs, lines.skip(1), l);
        assert(patched_contents(qs, lines.push(l)) =~= patched_contents(qs, lines) + apply_first(
            qs,
            l,
        ) + seq!['\n']);
    }
}

/// Appending one line extends the recorded replacements by that line's
/// record, when it changed, and by nothing otherwise.
proof fn lemma_replacements_push(
    qs: Seq<QueryModel>,
    lines: Seq<Seq<char>>,
    l: Seq<char>,
    first_no: int,
)
    ensures
        replacements_from(qs, lines.push(l), first_no) == replacements_from(qs, lines, first_no)
            + if line_changed(qs, l) {
            seq![
                ReplacementModel {
                    line_no: first_no + lines.len(),
                    old: l,
                    new: apply_first(qs, l),
                },
            ]
        } else {
            Seq::<ReplacementModel>::empty()
        },
    decreases lines.len(),
{
    if lines.len() == 0 {
        assert(lines.push(l).len() == 1);
        assert(lines.push(l)[0] == l);
        assert(lines.push(l).skip(1) =~= Seq::<Seq<char>>::empty());
        assert(replacements_from(qs, lines.push(l).skip(1), first_no + 1)
            == Seq::<ReplacementModel>::empty());
        assert(replacements_from(qs, lines, first_no) == Seq::<ReplacementModel>::empty());
        assert(replacements_from(qs, lines.push(l), first_no) =~= replacements_from(
            qs,
            lines,
            first_no,
        ) + if line_changed(qs, l) {
            seq![
                ReplacementModel {
                    line_no: first_no + lines.len(),
                    old: l,
                    new: apply_first(qs, l),
                },
            ]
        } else {
            Seq::<ReplacementModel>::empty()
        });
    } else {
        assert(lines.push(l)[0] == lines[0]);
        assert(lines.push(l).skip(1) =~= lines.skip(1).push(l));
        lemma_replacements_push(qs, lines.skip(1), l, first_no + 1);
        assert(replacements_from(qs, lines.push(l), first_no) =~= replacements_from(
            qs,
            lines,
            first_no,
        ) + if line_changed(qs, l) {
            seq![
                ReplacementModel {
                    line_no: first_no + lines.len(),
                    old: l,
                    new: apply_first(qs, l),
                },
            ]
        } else {
            Seq::<ReplacementModel>::empty()
        });
    }
}

/// No-op patching: a query list that records no replacement leaves every line
/// unchanged, so the patched output is the original lines, each closed with a
/// newline.
proof fn lemma_noop_patch_from(qs: Seq<QueryModel>, lines: Seq<Seq<char>>, first_no: int)
    requires
        replacements_from(qs, lines, first_no).len() == 0,
    ensures
        patched_contents(qs, lines) == joined_lines(lines),
    decreases lines.len(),
{
    if lines.len() > 0 {
        if line_changed(qs, lines[0]) {
            assert(replacements_from(qs, lines, first_no).len() >= 1);
        }
        lemma_noop_patch_from(qs, lines.skip(1), first_no + 1);
    }
}

/// No-op patching: when applying the queries records no replacement, the
/// reassembled contents are the original lines, each closed with exactly one
/// newline — the only difference from the source can be its trailing newline.
pub proof fn lemma_noop_patch(qs: Seq<QueryModel>, lines: Seq<Seq<char>>)
    requires
        replacements_from(qs, lines, 1).len() == 0,
    ensures
        patched_contents(qs, lines) == joined_lines(lines),
{
    lemma_noop_patch_from(qs, lines, 1);
}

/// Every recorded replacement holds a genuinely changed line, that line's
/// patched text, and a line number inside the patched range; the records
/// stand in strictly ascending line order, and each names the line it came
/// from.
pub proof fn lemma_replacements_sound(qs: Seq<QueryModel>, lines: Seq<Seq<char>>, first_no: int)
    ensures
        ({
            let rs = replacements_from(qs, lines, first_no);
            &&& forall|i: int| 0 <= i < rs.len() ==> rs[i].old != rs[i].new
            &&& forall|i: int|
                0 <= i < rs.len() ==> rs[i].new == apply_first(qs, rs[i].old)
            &&& forall|i: int|
                0 <= i < rs.len() ==> first_no <= #[trigger] rs[i].line_no < first_no
                    + lines.len()
            &&& forall|i: int|
                0 <= i < rs.len() ==> #[trigger] rs[i].old == lines[rs[i].line_no - first_no]
            &&& forall|i: int, j: int|
                0 <= i < j < rs.len() ==> rs[i].line_no < rs[j].line_no
        }),
    decreases lines.len(),
{
    if lines.len() > 0 {
        lemma_replacements_sound(qs, lines.skip(1), first_no + 1);
        let rest = replacements_from(qs, lines.skip(1), first_no + 1);
        assert(forall|i: int|
            0 <= i < rest.len() ==> rest[i].old == lines.skip(1)[rest[i].line_no - first_no - 1]);
        assert(forall|i: int|
            0 <= i < rest.len() ==> lines.skip(1)[rest[i].line_no - first_no - 1]
                == lines[rest[i].line_no - first_no]);
    }
}

/// Applies the queries to one line, first matching query wins; returns
/// exactly [`apply_first`] of the line.
fn patch_line(line: &String, queries: &Vec<Query>) -> (r: String)
    ensures
        r@ == apply_first(query_views(queries@), line@),
{
    let patcher = LinePatcher::new(line.as_str());
    let ghost qs = query_views(queries@);
    let mut i: usize = 0;
    while i < queries.len()
        invariant
            0 <= i <= queries@.len(),
            qs == query_views(queries@),
            qs.len() == queries@.len(),
            patcher@ == line@,
            forall|j: int| 0 <= j < i ==> query_apply(qs[j], line@) == line@,
        decreases queries@.len() - i,
    {
        let new_line = patcher.replace(&queries[i]);
        proof {
            assert(qs[i as int] == queries@[i as int]@);
        }
        if new_line != *line {
            proof {
                lemma_first_match_wins(qs, line@, i as int);
            }
            return new_line;
        }
        i += 1;
    }
    proof {
        lemma_apply_first_skip(qs, line@, qs.len() as int);
        assert(qs.skip(qs.len() as int).len() == 0);
    }
    line.clone()
}

/// The result of one full read-and-compute pass over a file: the path it came
/// from, every changed line, and the fully reassembled new contents.  No
/// write has happened; committing the contents back is the caller's separate
/// step.
pub struct FilePatcher {
    pub path: String,
    pub replacements: Vec<Replacement>,
    pub new_contents: String,
}

impl FilePatcher {
    /// One compute pass over a file's bytes: splits them into lines on the
    /// newline byte, decodes each line as UTF-8, applies the queries in order
    /// to each line, first changing query wins, and records every changed
    /// line.  Fails, recording and writing nothing, exactly when some line is
    /// not valid text.
    pub fn new(path: String, contents: Vec<u8>, queries: &Vec<Query>) -> (r: Result<
        FilePatcher,
        PatchError,
    >)
        ensures
            ({
                let chunks = split_lines(contents@);
                let qs = query_views(queries@);
                let lines = decoded_lines(chunks);
                &&& (r is Ok <==> all_lines_valid(chunks))
                &&& (r matches Err(e) ==> e == PatchError::InvalidData)
                &&& (r matches Ok(fp) ==> {
                    &&& fp.path@ == path@
                    &&& fp.new_contents@ == patched_contents(qs, lines)
                    &&& replacement_views(fp.replacements@) == replacements_from(qs, lines, 1)
                })
            }),
    {
        let ghost chunks_model = split_lines(contents@);
        let ghost qs = query_views(queries@);
        let ghost lines = decoded_lines(chunks_model);
        let chunks = split_on_newline(&contents);
        let mut replacements: Vec<Replacement> = Vec::new();
        let mut new_contents = String::new();
        let mut i: usize = 0;
        proof {
            assert(lines.take(0) =~= Seq::<Seq<char>>::empty());
            assert(replacement_views(replacements@) =~= Seq::<ReplacementModel>::empty());
        }
        while i < chunks.len()
            invariant
                0 <= i <= chunks@.len(),
                byte_views(chunks@) == chunks_model,
                chunks_model == split_lines(contents@),
                qs == query_views(queries@),
                lines == decoded_lines(chunks_model),
                lines.len() == chunks@.len(),
                forall|j: int| 0 <= j < i ==> valid_utf8(chunks_model[j]),
                new_contents@ == patched_contents(qs, lines.take(i as int)),
                replacement_views(replacements@) == replacements_from(
                    qs,
                    lines.take(i as int),
                    1,
                ),
            decreases chunks@.len() - i,
        {
            proof {
                assert(chunks@[i as int]@ == chunks_model[i as int]);
            }
            let line = match decode_line(&chunks[i]) {
                Some(l) => l,
                None => {
                    return Err(PatchError::InvalidData);
                },
            };
            proof {
                assert(line@ == lines[i as int]);
            }
            let new_line = patch_line(&line, queries);
            let ghost old_repls = replacements@;
            let ghost old_repl_views = replacement_views(replacements@);
            let changed = new_line != line;
            if changed {
                new_contents.append(new_line.as_str());
                replacements.push(Replacement { line_no: i + 1, old: line, new: new_line });
                proof {
                    assert(replacements@ =~= old_repls.push(replacements@.last()));
                }
            } else {
                new_contents.append(line.as_str());
            }
            new_contents.append("\n");
            proof {
                reveal_strlit("\n");
                assert("\n"@ =~= seq!['\n']);
                assert(lines.take(i as int + 1) =~= lines.take(i as int).push(lines[i as int]));
                lemma_patched_contents_push(qs, lines.take(i as int), lines[i as int]);
                lemma_replacements_push(qs, lines.take(i as int), lines[i as int], 1);
                if changed {
                    assert(replacement_views(replacements@) =~= old_repl_views.push(
                        replacements@.last()@,
                    ));
                }
            }
            i += 1;
        }
        proof {
            assert(lines.take(lines.len() as int) =~= lines);
        }
        Ok(FilePatcher { path, replacements, new_contents })
    }

    /// Read-only access to the recorded replacements, in line order.
    pub fn replacements(&self) -> (r: &Vec<Replacement>)
        ensures
            r@ == self.replacements@,
    {
        &self.replacements
    }

    /// Read-only access to the fully reassembled patched contents.
    pub fn new_contents(&self) -> (r: &String)
        ensures
            r@ == self.new_contents@,
    {
        &self.new_contents
    }

    /// The path the contents came from, and where they are to be written.
    pub fn path(&self) -> (r: &String)
        ensures
            r@ == self.path@,
    {
        &self.path
    }
}

} // verus!
