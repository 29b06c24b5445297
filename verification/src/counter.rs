use vstd::prelude::*;

verus! {

use crate::lines::spec_lines;
use crate::lines::first_line_len;
use crate::lines::lemma_first_line_len_bounds;

/// Occurrences of a byte in a stream.
pub open spec fn count_byte(b: u8, s: Seq<u8>) -> nat
    decreases s.len(),
{
    if s.len() == 0 {
        0
    } else {
        count_byte(b, s.drop_last()) + (if s.last() == b {
            1nat
        } else {
            0nat
        })
    }
}

/// Relies on memchr::memchr_iter: it yields every position holding the
/// byte, so its count is the number of occurrences.
#[verifier::external_body]
fn memchr_count(needle: u8, hay: &[u8]) -> (r: usize)
    ensures
        r == count_byte(needle, hay@),
{
    memchr::memchr_iter(needle, hay).count()
}

/// Count line terminators in one block, as the sequential counter does for
/// each chunk it reads.
pub fn count_newlines(chunk: &[u8]) -> (r: usize)
    ensures
        r == count_byte(10u8, chunk@),
{
    memchr_count(10u8, chunk)
}

/// Chunk boundaries do not matter: counts over a split stream add up.
pub proof fn lemma_count_byte_concat(b: u8, s1: Seq<u8>, s2: Seq<u8>)
    ensures
        count_byte(b, s1 + s2) == count_byte(b, s1) + count_byte(b, s2),
    decreases s2.len(),
{
    if s2.len() == 0 {
        assert(s1 + s2 =~= s1);
    } else {
        lemma_count_byte_concat(b, s1, s2.drop_last());
        assert((s1 + s2).drop_last() =~= s1 + s2.drop_last());
        assert((s1 + s2).last() == s2.last());
    }
}

proof fn lemma_count_byte_none(b: u8, s: Seq<u8>)
    requires
        forall|j: int| 0 <= j < s.len() ==> s[j] != b,
    ensures
        count_byte(b, s) == 0,
    decreases s.len(),
{
    if s.len() > 0 {
        lemma_count_byte_none(b, s.drop_last());
    }
}

proof fn lemma_first_line_shape(s: Seq<u8>)
    requires
        s.len() > 0,
    ensures
        1 <= first_line_len(s) <= s.len(),
        forall|j: int| 0 <= j < first_line_len(s) - 1 ==> s[j] != 10u8,
        first_line_len(s) < s.len() ==> s[first_line_len(s) - 1] == 10u8,
    decreases s.len(),
{
    lemma_first_line_len_bounds(s);
    if s[0] != 10u8 && s.len() > 1 {
        lemma_first_line_shape(s.skip(1));
        let k = first_line_len(s);
        assert(k == 1 + first_line_len(s.skip(1)));
        assert forall|j: int| 0 <= j < k - 1 implies s[j] != 10u8 by {
            if j > 0 {
                assert(s.skip(1)[j - 1] == s[j]);
            }
        }
        if k < s.len() {
            assert(s.skip(1)[k - 2] == s[k - 1]);
        }
    }
}

/// The counter agrees with the line reader: the terminator count is the
/// number of lines, except that a final unterminated line adds one line
/// the counter does not see.
pub proof fn lemma_count_lines(s: Seq<u8>)
    ensures
        spec_lines(s).len() == count_byte(10u8, s) + (if s.len() > 0 && s.last() != 10u8 {
            1nat
        } else {
            0nat
        }),
    decreases s.len(),
{
    if s.len() > 0 {
        lemma_first_line_shape(s);
        let k = first_line_len(s);
        let first = s.take(k);
        let rest = s.skip(k);
        assert(s =~= first + rest);
        lemma_count_byte_concat(10u8, first, rest);
        lemma_count_lines(rest);
        assert(forall|j: int| 0 <= j < first.len() - 1 ==> first[j] != 10u8);
        lemma_count_byte_none(10u8, first.drop_last());
        assert(count_byte(10u8, first) == (if first.last() == 10u8 {
            1nat
        } else {
            0nat
        }));
        if k < s.len() {
            assert(first.last() == 10u8);
            assert(rest.len() > 0);
            assert(s.last() == rest.last());
        } else {
            assert(rest.len() == 0);
            assert(first =~= s);
        }
    }
}

} // verus!
