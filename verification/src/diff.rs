//! Character-level diff spans between the old and the new text of a
//! replacement, and the preview rendering built from them.

use vstd::prelude::*;

use crate::file_patcher::{replacement_views, FilePatcher, Replacement, ReplacementModel};

verus! {

/// One span of a character-level diff: text both sides share, text only the
/// new side adds, or text only the old side holds.
pub enum DiffSpan {
    Same(String),
    Add(String),
    Rem(String),
}

/// What a span contributes to the old side: shared and removed text.
pub open spec fn old_part(span: DiffSpan) -> Seq<char> {
    match span {
        DiffSpan::Same(s) => s@,
        DiffSpan::Rem(s) => s@,
        DiffSpan::Add(_) => Seq::empty(),
    }
}

/// What a span contributes to the new side: shared and added text.
pub open spec fn new_part(span: DiffSpan) -> Seq<char> {
    match span {
        DiffSpan::Same(s) => s@,
        DiffSpan::Add(s) => s@,
        DiffSpan::Rem(_) => Seq::empty(),
    }
}

/// The old side of a diff: the shared and removed spans, concatenated.
pub open spec fn old_side(spans: Seq<DiffSpan>) -> Seq<char>
    decreases spans.len(),
{
    if spans.len() == 0 {
        Seq::empty()
    } else {
        old_part(spans[0]) + old_side(spans.skip(1))
    }
}

/// The new side of a diff: the shared and added spans, concatenated.
pub open spec fn new_side(spans: Seq<DiffSpan>) -> Seq<char>
    decreases spans.len(),
{
    if spans.len() == 0 {
        Seq::empty()
    } else {
        new_part(spans[0]) + new_side(spans.skip(1))
    }
}

/// Relies on `difference::Changeset::new` with an empty split term: its spans
/// partition the two texts, the shared and removed spans concatenating to the
/// first text and the shared and added spans to the second.
#[verifier::external_body]
fn changeset(old: &str, new: &str) -> (r: Vec<DiffSpan>)
    ensures
        old_side(r@) == old@,
        new_side(r@) == new@,
{
    difference::Changeset::new(old, new, "")
        .diffs
        .into_iter()
        .map(|d| match d {
            difference::Difference::Same(s) => DiffSpan::Same(s),
            difference::Difference::Add(s) => DiffSpan::Add(s),
            difference::Difference::Rem(s) => DiffSpan::Rem(s),
        })
        .collect()
}

/// Appending a span extends the old side by the span's old contribution.
proof fn lemma_old_side_push(spans: Seq<DiffSpan>, s: DiffSpan)
    ensures
        old_side(spans.push(s)) == old_side(spans) + old_part(s),
    decreases spans.len(),
{
    if spans.len() == 0 {
        assert(spans.push(s).len() == 1);
        assert(spans.push(s)[0] == s);
        assert(spans.push(s).skip(1) =~= Seq::<DiffSpan>::empty());
        assert(old_side(spans.push(s).skip(1)) == Seq::<char>::empty());
        assert(old_side(spans) == Seq::<char>::empty());
        assert(old_side(spans.push(s)) =~= old_side(spans) + old_part(s));
    } else {
        assert(spans.push(s)[0] == spans[0]);
        assert(spans.push(s).skip(1) =~= spans.skip(1).push(s));
        lemma_old_side_push(spans.skip(1), s);
        assert(old_side(spans.push(s)) =~= old_side(spans) + old_part(s));
    }
}

/// Appending a span extends the new side by the span's new contribution.
proof fn lemma_new_side_push(spans: Seq<DiffSpan>, s: DiffSpan)
    ensures
        new_side(spans.push(s)) == new_side(spans) + new_part(s),
    decreases spans.len(),
{
    if spans.len() == 0 {
        assert(spans.push(s).len() == 1);
        assert(spans.push(s)[0] == s);
        assert(spans.push(s).skip(1) =~= Seq::<DiffSpan>::empty());
        assert(new_side(spans.push(s).skip(1)) == Seq::<char>::empty());
        assert(new_side(spans) == Seq::<char>::empty());
        assert(new_side(spans.push(s)) =~= new_side(spans) + new_part(s));
    } else {
        assert(spans.push(s)[0] == spans[0]);
        assert(spans.push(s).skip(1) =~= spans.skip(1).push(s));
        lemma_new_side_push(spans.skip(1), s);
        assert(new_side(spans.push(s)) =~= new_side(spans) + new_part(s));
    }
}

/// The preview line for the old text: `"-- "`, then the shared and removed
/// spans in order, which reconstruct the old side exactly.
pub fn removed_line(spans: &Vec<DiffSpan>) -> (r: String)
    ensures
        r@ == "-- "@ + old_side(spans@),
{
    let mut result = String::from_str("-- ");
    let mut i: usize = 0;
    proof {
        assert(old_side(spans@.take(0)) == Seq::<char>::empty());
        assert(result@ =~= "-- "@ + old_side(spans@.take(0)));
    }
    while i < spans.len()
        invariant
            0 <= i <= spans@.len(),
            result@ == "-- "@ + old_side(spans@.take(i as int)),
        decreases spans@.len() - i,
    {
        match &spans[i] {
            DiffSpan::Same(s) => result.append(s.as_str()),
            DiffSpan::Rem(s) => result.append(s.as_str()),
            DiffSpan::Add(_) => (),
        }
        proof {
            assert(spans@.take(i as int + 1) =~= spans@.take(i as int).push(spans@[i as int]));
            lemma_old_side_push(spans@.take(i as int), spans@[i as int]);
            assert(result@ =~= "-- "@ + old_side(spans@.take(i as int + 1)));
        }
        i += 1;
    }
    proof {
        assert(spans@.take(spans@.len() as int) =~= spans@);
    }
    result
}

/// The preview line for the new text: `"++ "`, then the shared and added
/// spans in order, which reconstruct the new side exactly.
pub fn added_line(spans: &Vec<DiffSpan>) -> (r: String)
    ensures
        r@ == "++ "@ + new_side(spans@),
{
    let mut result = String::from_str("++ ");
    let mut i: usize = 0;
    proof {
        assert(new_side(spans@.take(0)) == Seq::<char>::empty());
        assert(result@ =~= "++ "@ + new_side(spans@.take(0)));
    }
    while i < spans.len()
        invariant
            0 <= i <= spans@.len(),
            result@ == "++ "@ + new_side(spans@.take(i as int)),
        decreases spans@.len() - i,
    {
        match &spans[i] {
            DiffSpan::Same(s) => result.append(s.as_str()),
            DiffSpan::Add(s) => result.append(s.as_str()),
            DiffSpan::Rem(_) => (),
        }
        proof {
            assert(spans@.take(i as int + 1) =~= spans@.take(i as int).push(spans@[i as int]));
            lemma_new_side_push(spans@.take(i as int), spans@[i as int]);
            assert(result@ =~= "++ "@ + new_side(spans@.take(i as int + 1)));
        }
        i += 1;
    }
    proof {
        assert(spans@.take(spans@.len() as int) =~= spans@);
    }
    result
}

/// The two preview lines of one replacement, each closed with a newline.
pub open spec fn rendered_replacement(r: ReplacementModel) -> Seq<char> {
    "-- "@ + r.old + "\n"@ + "++ "@ + r.new + "\n"@
}

/// The preview lines of a list of replacements, in order.
pub open spec fn rendered_replacements(rs: Seq<ReplacementModel>) -> Seq<char>
    decreases rs.len(),
{
    if rs.len() == 0 {
        Seq::empty()
    } else {
        rendered_replacement(rs[0]) + rendered_replacements(rs.skip(1))
    }
}

/// The full preview of a patch: a header naming the file, the preview lines
/// of every replacement in order, and a closing blank line.
pub open spec fn rendered_patch(path: Seq<char>, rs: Seq<ReplacementModel>) -> Seq<char> {
    "Patching "@ + path + "\n"@ + rendered_replacements(rs) + "\n"@
}

/// Appending a replacement extends the rendered preview by its two lines.
proof fn lemma_rendered_push(rs: Seq<ReplacementModel>, r: ReplacementModel)
    ensures
        rendered_replacements(rs.push(r)) == rendered_replacements(rs) + rendered_replacement(r),
    decreases rs.len(),
{
    if rs.len() == 0 {
        assert(rs.push(r).len() == 1);
        assert(rs.push(r)[0] == r);
        assert(rs.push(r).skip(1) =~= Seq::<ReplacementModel>::empty());
        assert(rendered_replacements(rs.push(r).skip(1)) == Seq::<char>::empty());
        assert(rendered_replacements(rs) == Seq::<char>::empty());
        assert(rendered_replacements(rs.push(r)) =~= rendered_replacements(rs)
            + rendered_replacement(r));
    } else {
        assert(rs.push(r)[0] == rs[0]);
        assert(rs.push(r).skip(1) =~= rs.skip(1).push(r));
        lemma_rendered_push(rs.skip(1), r);
        assert(rendered_replacements(rs.push(r)) =~= rendered_replacements(rs)
            + rendered_replacement(r));
    }
}

impl Replacement {
    /// The spans of a character-level diff between the old and the new line.
    /// The shared and removed spans concatenate to the old text exactly, and
    /// the shared and added spans to the new text: rendering either side from
    /// the spans reconstructs that side in full.
    pub fn diff_spans(&self) -> (r: Vec<DiffSpan>)
        ensures
            old_side(r@) == self.old@,
            new_side(r@) == self.new@,
    {
        changeset(self.old.as_str(), self.new.as_str())
    }

    /// The two preview lines for this replacement: `-- ` with the old text
    /// rebuilt from the diff's shared and removed spans, then `++ ` with the
    /// new text rebuilt from its shared and added spans.
    pub fn render(&self) -> (r: String)
        ensures
            r@ == rendered_replacement(self@),
    {
        let spans = self.diff_spans();
        let mut out = removed_line(&spans);
        out.append("\n");
        let added = added_line(&spans);
        out.append(added.as_str());
        out.append("\n");
        out
    }
}

impl FilePatcher {
    /// The full preview of this patch: a header naming the file, then the two
    /// diff lines of every replacement, and a closing blank line.
    pub fn patch_preview(&self) -> (r: String)
        ensures
            r@ == rendered_patch(self.path@, replacement_views(self.replacements@)),
    {
        let ghost rs = replacement_views(self.replacements@);
        let mut out = String::from_str("Patching ");
        out.append(self.path.as_str());
        out.append("\n");
        let mut i: usize = 0;
        proof {
            assert(rs.take(0) =~= Seq::<ReplacementModel>::empty());
            assert(out@ =~= "Patching "@ + self.path@ + "\n"@ + rendered_replacements(rs.take(0)));
        }
        while i < self.replacements.len()
            invariant
                0 <= i <= self.replacements@.len(),
                rs == replacement_views(self.replacements@),
                rs.len() == self.replacements@.len(),
                out@ == "Patching "@ + self.path@ + "\n"@ + rendered_replacements(
                    rs.take(i as int),
                ),
            decreases self.replacements@.len() - i,
        {
            let rendered = self.replacements[i].render();
            out.append(rendered.as_str());
            proof {
                assert(rs[i as int] == self.replacements@[i as int]@);
                assert(rs.take(i as int + 1) =~= rs.take(i as int).push(rs[i as int]));
                lemma_rendered_push(rs.take(i as int), rs[i as int]);
                assert(out@ =~= "Patching "@ + self.path@ + "\n"@ + rendered_replacements(
                    rs.take(i as int + 1),
                ));
            }
            i += 1;
        }
        out.append("\n");
        proof {
            assert(rs.take(rs.len() as int) =~= rs);
            assert(out@ =~= rendered_patch(self.path@, rs));
        }
        out
    }
}

} // verus!
