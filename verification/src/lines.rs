use vstd::prelude::*;

verus! {

use vstd::string::StrSliceExecFns;
use vstd::string::StringSliceAdditionalSpecFns;
use vstd::utf8::valid_utf8;
use vstd::utf8::decode_utf8;
use vstd::utf8::encode_utf8_decode_utf8;

/// Relies on std's `str::from_utf8`: succeeds exactly on valid UTF-8 input
/// and then views the same bytes as text.
#[verifier::external_body]
pub fn bytes_as_utf8(v: &[u8]) -> (r: Option<&str>)
    ensures
        r is Some <==> valid_utf8(v@),
        r matches Some(s) ==> s.spec_bytes() == v@,
{
    std::str::from_utf8(v).ok()
}

/// The characters denoted by a byte sequence, when it is valid UTF-8.
pub fn decode_line(v: &[u8]) -> (r: Option<&str>)
    ensures
        r is Some <==> valid_utf8(v@),
        r matches Some(s) ==> s@ == decode_utf8(v@),
{
    let r = bytes_as_utf8(v);
    proof {
        broadcast use encode_utf8_decode_utf8;

        if r is Some {
            assert(decode_utf8(v@) == r->0@);
        }
    }
    r
}

/// A line with its terminator removed: a trailing `'\n'` is stripped, and a
/// `'\r'` directly before it as well.
pub open spec fn spec_normalize(s: Seq<char>) -> Seq<char> {
    let t = if s.len() > 0 && s[s.len() - 1] == '\n' {
        s.drop_last()
    } else {
        s
    };
    if t.len() > 0 && t[t.len() - 1] == '\r' {
        t.drop_last()
    } else {
        t
    }
}

/// Strip one trailing line terminator, and a carriage return before it.
pub fn normalize_line(s: &str) -> (r: &str)
    ensures
        r@ == spec_normalize(s@),
{
    let n = s.unicode_len();
    let t = if n > 0 && s.get_char(n - 1) == '\n' {
        s.substring_char(0, n - 1)
    } else {
        s
    };
    proof {
        assert(t@ =~= if s@.len() > 0 && s@[s@.len() as int - 1] == '\n' {
            s@.drop_last()
        } else {
            s@
        });
    }
    let m = t.unicode_len();
    let r = if m > 0 && t.get_char(m - 1) == '\r' {
        t.substring_char(0, m - 1)
    } else {
        t
    };
    proof {
        assert(r@ =~= spec_normalize(s@));
    }
    r
}

/// A line with one trailing carriage return removed, if present.
pub open spec fn spec_trim_cr(s: Seq<char>) -> Seq<char> {
    if s.len() > 0 && s[s.len() - 1] == '\r' {
        s.drop_last()
    } else {
        s
    }
}

/// Strip one trailing carriage return, if present.
pub fn trim_cr(s: &str) -> (r: &str)
    ensures
        r@ == spec_trim_cr(s@),
{
    let n = s.unicode_len();
    let r = if n > 0 && s.get_char(n - 1) == '\r' {
        s.substring_char(0, n - 1)
    } else {
        s
    };
    proof {
        assert(r@ =~= if s@.len() > 0 && s@[s@.len() - 1] == '\r' {
            s@.drop_last()
        } else {
            s@
        });
    }
    r
}

/// Length of the first line of a byte stream: the index just past the first
/// terminator byte, or the whole stream when none occurs.
pub open spec fn first_line_len(s: Seq<u8>) -> int
    decreases s.len(),
{
    if s.len() == 0 {
        0
    } else if s[0] == 10u8 {
        1
    } else {
        1 + first_line_len(s.skip(1))
    }
}

pub proof fn lemma_first_line_len_bounds(s: Seq<u8>)
    ensures
        s.len() > 0 ==> 1 <= first_line_len(s) <= s.len(),
        s.len() == 0 ==> first_line_len(s) == 0,
    decreases s.len(),
{
    if s.len() > 0 && s[0] != 10u8 {
        lemma_first_line_len_bounds(s.skip(1));
    }
}

/// The lines of a byte stream: split after each terminator byte, the
/// terminator kept with its line; a final incomplete line is kept as well.
/// Every byte belongs to exactly one line.
pub open spec fn spec_lines(s: Seq<u8>) -> Seq<Seq<u8>>
    decreases s.len() via spec_lines_decreases
{
    if s.len() == 0 {
        Seq::empty()
    } else {
        seq![s.take(first_line_len(s))] + spec_lines(s.skip(first_line_len(s)))
    }
}

#[via_fn]
proof fn spec_lines_decreases(s: Seq<u8>) {
    lemma_first_line_len_bounds(s);
}

/// When no terminator occurs before index `k`, the first line runs exactly
/// up to `k` (if `s[k]` is the terminator) or covers the whole stream.
proof fn lemma_first_line_at(s: Seq<u8>, k: int)
    requires
        0 <= k <= s.len(),
        forall|j: int| 0 <= j < k ==> s[j] != 10u8,
        k < s.len() ==> s[k] == 10u8,
    ensures
        k < s.len() ==> first_line_len(s) == k + 1,
        k == s.len() ==> first_line_len(s) == s.len(),
    decreases k,
{
    if s.len() > 0 && s[0] != 10u8 {
        lemma_first_line_at(s.skip(1), k - 1);
    }
}

/// A nonempty stream with no terminator before its last byte is one line.
proof fn lemma_lines_single(s: Seq<u8>)
    requires
        s.len() > 0,
        forall|j: int| 0 <= j < s.len() - 1 ==> s[j] != 10u8,
    ensures
        spec_lines(s) == seq![s],
{
    if s[s.len() - 1] == 10u8 {
        lemma_first_line_at(s, s.len() - 1);
    } else {
        lemma_first_line_at(s, s.len() as int);
    }
    assert(s.take(s.len() as int) =~= s);
    assert(s.skip(s.len() as int) =~= Seq::<u8>::empty());
    assert(spec_lines(Seq::<u8>::empty()) =~= Seq::<Seq<u8>>::empty());
    assert(spec_lines(s) =~= seq![s]);
}

proof fn lemma_first_line_concat(a: Seq<u8>, b: Seq<u8>)
    requires
        a.len() > 0,
        a[a.len() - 1] == 10u8,
    ensures
        first_line_len(a + b) == first_line_len(a),
    decreases a.len(),
{
    if a[0] != 10u8 {
        assert((a + b).skip(1) =~= a.skip(1) + b);
        lemma_first_line_concat(a.skip(1), b);
    }
}

/// Splitting into lines distributes over concatenation at a line boundary.
pub proof fn lemma_lines_concat(a: Seq<u8>, b: Seq<u8>)
    requires
        a.len() == 0 || a[a.len() - 1] == 10u8,
    ensures
        spec_lines(a + b) == spec_lines(a) + spec_lines(b),
    decreases a.len(),
{
    if a.len() == 0 {
        assert(a + b =~= b);
        assert(spec_lines(a) + spec_lines(b) =~= spec_lines(b));
    } else {
        lemma_first_line_concat(a, b);
        lemma_first_line_len_bounds(a);
        let k = first_line_len(a);
        assert((a + b).take(k) =~= a.take(k));
        assert((a + b).skip(k) =~= a.skip(k) + b);
        if k < a.len() {
            assert(a.skip(k)[a.skip(k).len() - 1] == a[a.len() - 1]);
        }
        lemma_lines_concat(a.skip(k), b);
        assert(spec_lines(a + b) =~= spec_lines(a) + spec_lines(b));
    }
}

/// Split a byte stream into its lines, terminators kept: the single
/// sequential pass the line reader performs over the decompressed input.
pub fn split_lines(data: &Vec<u8>) -> (r: Vec<Vec<u8>>)
    ensures
        r.deep_view() == spec_lines(data@),
{
    let mut out: Vec<Vec<u8>> = Vec::new();
    let mut cur: Vec<u8> = Vec::new();
    let ghost mut start: int = 0;
    let mut i: usize = 0;
    while i < data.len()
        invariant
            0 <= start <= i <= data@.len(),
            out.deep_view() == spec_lines(data@.take(start)),
            start == 0 || data@[start - 1] == 10u8,
            cur@ =~= data@.subrange(start, i as int),
            forall|j: int| 0 <= j < cur@.len() ==> cur@[j] != 10u8,
        decreases data@.len() - i,
    {
        let b = data[i];
        cur.push(b);
        i += 1;
        if b == 10u8 {
            proof {
                assert(data@.take(i as int) =~= data@.take(start) + data@.subrange(
                    start,
                    i as int,
                ));
                lemma_lines_concat(data@.take(start), data@.subrange(start, i as int));
                lemma_lines_single(data@.subrange(start, i as int));
            }
            let done = cur;
            cur = Vec::new();
            out.push(done);
            proof {
                assert(out.deep_view() =~~= spec_lines(data@.take(i as int)));
                start = i as int;
            }
        }
    }
    proof {
        assert(data@.take(i as int) =~= data@);
    }
    if cur.len() > 0 {
        proof {
            assert(data@ =~= data@.take(start) + data@.subrange(start, i as int));
            lemma_lines_concat(data@.take(start), data@.subrange(start, i as int));
            lemma_lines_single(data@.subrange(start, i as int));
        }
        out.push(cur);
        proof {
            assert(out.deep_view() =~~= spec_lines(data@));
        }
    } else {
        proof {
            assert(data@.take(start) =~= data@);
        }
    }
    out
}

} // verus!
