//! Literal substring search and replacement over the characters of a line.

use vstd::prelude::*;

verus! {

/// The needle `find` occurs in `hay` starting at position `i`.
pub open spec fn occurs_at(hay: Seq<char>, find: Seq<char>, i: int) -> bool {
    &&& 0 <= i
    &&& i + find.len() <= hay.len()
    &&& hay.subrange(i, i + find.len() as int) == find
}

/// Every non-overlapping occurrence of `find` in `line`, scanned left to
/// right, replaced by `rep`.  An empty needle never matches, so it leaves the
/// line unchanged.
pub open spec fn replace_all_spec(line: Seq<char>, find: Seq<char>, rep: Seq<char>) -> Seq<char>
    decreases line.len(),
{
    if find.len() == 0 || line.len() < find.len() {
        line
    } else if line.take(find.len() as int) == find {
        rep + replace_all_spec(line.skip(find.len() as int), find, rep)
    } else {
        seq![line[0]] + replace_all_spec(line.skip(1), find, rep)
    }
}

/// Whether `find` occurs in `line` at position `pos`.
fn match_at(line: &str, line_len: usize, find: &str, find_len: usize, pos: usize) -> (r: bool)
    requires
        line_len == line@.len(),
        find_len == find@.len(),
        pos + find_len <= line_len,
    ensures
        r == occurs_at(line@, find@, pos as int),
{
    let mut j: usize = 0;
    while j < find_len
        invariant
            0 <= j <= find_len,
            line_len == line@.len(),
            find_len == find@.len(),
            pos + find_len <= line_len,
            forall|k: int| 0 <= k < j ==> line@[pos + k] == find@[k],
        decreases find_len - j,
    {
        if line.get_char(pos + j) != find.get_char(j) {
            proof {
                assert(line@.subrange(pos as int, pos + find@.len() as int) != find@) by {
                    if line@.subrange(pos as int, pos + find@.len() as int) == find@ {
                        assert(line@.subrange(pos as int, pos + find@.len() as int)[j as int]
                            == line@[pos + j]);
                    }
                }
            }
            return false;
        }
        j += 1;
    }
    proof {
        assert(line@.subrange(pos as int, pos + find@.len() as int) =~= find@);
    }
    true
}

/// Replaces every non-overlapping occurrence of `find` in `line` with `rep`,
/// scanning left to right; with an empty needle the line comes back unchanged.
pub fn replace_all(line: &str, find: &str, rep: &str) -> (r: String)
    ensures
        r@ == replace_all_spec(line@, find@, rep@),
{
    let line_len = line.unicode_len();
    let find_len = find.unicode_len();
    if find_len == 0 {
        return line.to_owned();
    }
    let mut result = String::new();
    let mut pos: usize = 0;
    proof {
        assert(line@.skip(0) =~= line@);
        assert(result@ + replace_all_spec(line@, find@, rep@)
            =~= replace_all_spec(line@, find@, rep@));
    }
    while pos < line_len
        invariant
            0 <= pos <= line_len,
            line_len == line@.len(),
            find_len == find@.len(),
            find_len > 0,
            result@ + replace_all_spec(line@.skip(pos as int), find@, rep@)
                == replace_all_spec(line@, find@, rep@),
        decreases line_len - pos,
    {
        let ghost s = line@.skip(pos as int);
        if find_len <= line_len - pos && match_at(line, line_len, find, find_len, pos) {
            result.append(rep);
            proof {
                assert(s.take(find@.len() as int)
                    =~= line@.subrange(pos as int, pos + find@.len() as int));
                assert(s.skip(find@.len() as int) =~= line@.skip(pos + find_len));
                assert(replace_all_spec(s, find@, rep@)
                    == rep@ + replace_all_spec(line@.skip(pos + find_len), find@, rep@));
            }
            pos = pos + find_len;
        } else {
            let c = line.substring_char(pos, pos + 1);
            result.append(c);
            proof {
                assert(c@ =~= seq![line@[pos as int]]);
                assert(s[0] == line@[pos as int]);
                assert(s.skip(1) =~= line@.skip(pos as int + 1));
                if s.len() < find@.len() {
                    assert(replace_all_spec(s, find@, rep@) == s);
                    assert(replace_all_spec(s.skip(1), find@, rep@) == s.skip(1));
                    assert(s =~= seq![s[0]] + s.skip(1));
                } else {
                    assert(s.take(find@.len() as int)
                        =~= line@.subrange(pos as int, pos + find@.len() as int));
                    assert(s.take(find@.len() as int) != find@);
                    assert(replace_all_spec(s, find@, rep@)
                        == seq![s[0]] + replace_all_spec(s.skip(1), find@, rep@));
                }
            }
            pos = pos + 1;
        }
    }
    proof {
        assert(line@.skip(line_len as int) =~= Seq::<char>::empty());
        assert(replace_all_spec(line@.skip(pos as int), find@, rep@)
            =~= Seq::<char>::empty());
        assert(result@ =~= replace_all_spec(line@, find@, rep@));
    }
    result
}

} // verus!
