//! Splitting a file's bytes into lines on the newline byte, and decoding each
//! line as UTF-8 text.

use vstd::prelude::*;
use vstd::utf8::{decode_utf8, valid_utf8};

verus! {

/// The newline byte that separates lines.
pub const NEWLINE: u8 = 10;

/// The lines of `bytes`, split on the newline byte.  The separator belongs to
/// no line; a trailing newline closes the last line rather than opening an
/// empty one, so `"a\n"` and `"a"` both hold the single line `"a"`.
pub open spec fn split_lines(bytes: Seq<u8>) -> Seq<Seq<u8>>
    decreases bytes.len(),
{
    if bytes.len() == 0 {
        Seq::empty()
    } else if bytes[0] == NEWLINE {
        seq![Seq::<u8>::empty()] + split_lines(bytes.skip(1))
    } else {
        let rest = split_lines(bytes.skip(1));
        if rest.len() == 0 {
            seq![seq![bytes[0]]]
        } else {
            seq![seq![bytes[0]] + rest[0]] + rest.skip(1)
        }
    }
}

/// The views of a sequence of byte vectors.
pub open spec fn byte_views(chunks: Seq<Vec<u8>>) -> Seq<Seq<u8>> {
    chunks.map_values(|c: Vec<u8>| c@)
}

/// Splitting a chunk without a newline byte followed by a newline byte and a
/// remainder yields that chunk as one line, then the lines of the remainder.
proof fn lemma_split_before_newline(cur: Seq<u8>, rem: Seq<u8>)
    requires
        forall|j: int| 0 <= j < cur.len() ==> cur[j] != NEWLINE,
    ensures
        split_lines(cur + seq![NEWLINE] + rem) == seq![cur] + split_lines(rem),
    decreases cur.len(),
{
    let s = cur + seq![NEWLINE] + rem;
    if cur.len() == 0 {
        assert(s =~= seq![NEWLINE] + rem);
        assert(s[0] == NEWLINE);
        assert(s.skip(1) =~= rem);
        assert(cur =~= Seq::<u8>::empty());
    } else {
        assert(s[0] == cur[0]);
        assert(s.skip(1) =~= cur.skip(1) + seq![NEWLINE] + rem);
        lemma_split_before_newline(cur.skip(1), rem);
        let rest = split_lines(s.skip(1));
        assert(rest == seq![cur.skip(1)] + split_lines(rem));
        assert(rest[0] == cur.skip(1));
        assert(seq![s[0]] + rest[0] =~= cur);
        assert(rest.skip(1) =~= split_lines(rem));
        assert(split_lines(s) =~= seq![cur] + split_lines(rem));
    }
}

/// A chunk without a newline byte is one line on its own, or no line at all
/// when it is empty.
proof fn lemma_split_no_newline(cur: Seq<u8>)
    requires
        forall|j: int| 0 <= j < cur.len() ==> cur[j] != NEWLINE,
    ensures
        split_lines(cur) == if cur.len() == 0 {
            Seq::<Seq<u8>>::empty()
        } else {
            seq![cur]
        },
    decreases cur.len(),
{
    if cur.len() > 0 {
        lemma_split_no_newline(cur.skip(1));
        let rest = split_lines(cur.skip(1));
        if cur.len() == 1 {
            assert(rest.len() == 0);
            assert(seq![cur[0]] =~= cur);
        } else {
            assert(rest == seq![cur.skip(1)]);
            assert(seq![cur[0]] + cur.skip(1) =~= cur);
            assert(split_lines(cur) =~= seq![cur]);
        }
    }
}

/// Splits a file's bytes into its lines, exactly as [`split_lines`] says.
pub fn split_on_newline(contents: &Vec<u8>) -> (r: Vec<Vec<u8>>)
    ensures
        byte_views(r@) == split_lines(contents@),
{
    let ghost target = split_lines(contents@);
    let mut result: Vec<Vec<u8>> = Vec::new();
    let mut cur: Vec<u8> = Vec::new();
    let mut i: usize = 0;
    proof {
        assert(cur@ + contents@.skip(0) =~= contents@);
        assert(byte_views(result@) + split_lines(contents@) =~= split_lines(contents@));
    }
    while i < contents.len()
        invariant
            0 <= i <= contents@.len(),
            forall|j: int| 0 <= j < cur@.len() ==> cur@[j] != NEWLINE,
            byte_views(result@) + split_lines(cur@ + contents@.skip(i as int)) == target,
            target == split_lines(contents@),
        decreases contents@.len() - i,
    {
        let b = contents[i];
        let ghost rem = contents@.skip(i as int + 1);
        if b == NEWLINE {
            proof {
                assert(cur@ + contents@.skip(i as int) =~= cur@ + seq![NEWLINE] + rem);
                lemma_split_before_newline(cur@, rem);
            }
            result.push(cur);
            cur = Vec::new();
            proof {
                assert(cur@ + rem =~= rem);
                assert(byte_views(result@) =~= byte_views(result@.drop_last()).push(
                    result@.last()@,
                ));
                assert(byte_views(result@) + split_lines(rem) =~= target);
            }
        } else {
            proof {
                assert(cur@.push(b) + rem =~= cur@ + contents@.skip(i as int));
            }
            cur.push(b);
        }
        i += 1;
    }
    proof {
        assert(cur@ + contents@.skip(i as int) =~= cur@);
        lemma_split_no_newline(cur@);
    }
    if cur.len() > 0 {
        result.push(cur);
        proof {
            assert(byte_views(result@) =~= byte_views(result@.drop_last()).push(result@.last()@));
        }
    } else {
        proof {
            assert(byte_views(result@) + split_lines(cur@) =~= byte_views(result@));
        }
    }
    result
}

/// The lines reassembled: each followed by exactly one newline byte.
pub open spec fn joined_byte_lines(lines: Seq<Seq<u8>>) -> Seq<u8>
    decreases lines.len(),
{
    if lines.len() == 0 {
        Seq::empty()
    } else {
        lines[0] + seq![NEWLINE] + joined_byte_lines(lines.skip(1))
    }
}

/// What reassembling the split lines gives back: the file's bytes, except
/// that a missing trailing newline is added.
pub open spec fn normalized(bytes: Seq<u8>) -> Seq<u8> {
    if bytes.len() == 0 || bytes.last() == NEWLINE {
        bytes
    } else {
        bytes.push(NEWLINE)
    }
}

/// Splitting a file into lines and reassembling them, one newline after each
/// line, is the identity on the file's bytes up to trailing-newline
/// normalization: exactly the change a patch that replaces nothing makes.
pub proof fn lemma_split_lines_join(bytes: Seq<u8>)
    ensures
        joined_byte_lines(split_lines(bytes)) == normalized(bytes),
    decreases bytes.len(),
{
    if bytes.len() == 0 {
    } else if bytes[0] == NEWLINE {
        lemma_split_lines_join(bytes.skip(1));
        let split_rest = split_lines(bytes.skip(1));
        assert((seq![Seq::<u8>::empty()] + split_rest).skip(1) =~= split_rest);
        assert((seq![Seq::<u8>::empty()] + split_rest)[0] == Seq::<u8>::empty());
        if bytes.len() == 1 {
            assert(bytes.skip(1) =~= Seq::<u8>::empty());
            assert(joined_byte_lines(split_lines(bytes)) =~= seq![NEWLINE]);
            assert(bytes =~= seq![NEWLINE]);
        } else {
            assert(bytes.last() == bytes.skip(1).last());
            if bytes.skip(1).last() == NEWLINE {
                assert(joined_byte_lines(split_lines(bytes)) =~= seq![NEWLINE] + bytes.skip(1));
                assert(seq![NEWLINE] + bytes.skip(1) =~= bytes);
            } else {
                assert(joined_byte_lines(split_lines(bytes)) =~= seq![NEWLINE] + bytes.skip(
                    1,
                ).push(NEWLINE));
                assert(seq![NEWLINE] + bytes.skip(1).push(NEWLINE) =~= bytes.push(NEWLINE));
            }
        }
    } else {
        lemma_split_lines_join(bytes.skip(1));
        let rest = split_lines(bytes.skip(1));
        if rest.len() == 0 {
            assert(joined_byte_lines(rest) == Seq::<u8>::empty());
            if bytes.skip(1).len() > 0 {
                assert(normalized(bytes.skip(1)).len() > 0);
            }
            assert(bytes.len() == 1);
            assert(split_lines(bytes) == seq![seq![bytes[0]]]);
            assert(seq![seq![bytes[0]]].skip(1) =~= Seq::<Seq<u8>>::empty());
            assert(joined_byte_lines(split_lines(bytes)) =~= seq![bytes[0]] + seq![NEWLINE]);
            assert(seq![bytes[0]] + seq![NEWLINE] =~= bytes.push(NEWLINE));
        } else {
            let s = split_lines(bytes);
            assert(s[0] == seq![bytes[0]] + rest[0]);
            assert(s.skip(1) =~= rest.skip(1));
            assert(joined_byte_lines(s) =~= seq![bytes[0]] + joined_byte_lines(rest));
            assert(bytes.skip(1).len() > 0);
            assert(bytes.last() == bytes.skip(1).last());
            if bytes.skip(1).last() == NEWLINE {
                assert(seq![bytes[0]] + bytes.skip(1) =~= bytes);
            } else {
                assert(seq![bytes[0]] + bytes.skip(1).push(NEWLINE) =~= bytes.push(NEWLINE));
            }
        }
    }
}

/// Relies on `String::from_utf8`: it returns the text of exactly the byte
/// sequences that are valid UTF-8, as vstd's own model of UTF-8 states it.
#[verifier::external_body]
pub fn decode_line(bytes: &Vec<u8>) -> (r: Option<String>)
    ensures
        r is Some <==> valid_utf8(bytes@),
        r is Some ==> r.unwrap()@ == decode_utf8(bytes@),
{
    String::from_utf8(bytes.clone()).ok()
}

} // verus!
