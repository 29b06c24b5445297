use vstd::prelude::*;

verus! {

use vstd::string::StrSliceExecFns;
use vstd::string::StringExecFns;

/// The Unicode white-space characters, the set `char::is_whitespace` accepts.
pub open spec fn is_space(c: char) -> bool {
    ||| c == ' '
    ||| c == '\t'
    ||| c == '\n'
    ||| c == '\u{b}'
    ||| c == '\u{c}'
    ||| c == '\r'
    ||| c == '\u{85}'
    ||| c == '\u{a0}'
    ||| c == '\u{1680}'
    ||| (0x2000 <= c as u32 && c as u32 <= 0x200a)
    ||| c == '\u{2028}'
    ||| c == '\u{2029}'
    ||| c == '\u{202f}'
    ||| c == '\u{205f}'
    ||| c == '\u{3000}'
}

/// White-space test over the exact set std documents for `char::is_whitespace`.
pub fn is_space_char(c: char) -> (r: bool)
    ensures
        r == is_space(c),
{
    let u = c as u32;
    u == 0x20 || (0x9 <= u && u <= 0xd) || u == 0x85 || u == 0xa0 || u == 0x1680 || (0x2000 <= u
        && u <= 0x200a) || u == 0x2028 || u == 0x2029 || u == 0x202f || u == 0x205f || u == 0x3000
}

pub open spec fn drop_leading_spaces(s: Seq<char>) -> Seq<char>
    decreases s.len(),
{
    if s.len() > 0 && is_space(s[0]) {
        drop_leading_spaces(s.skip(1))
    } else {
        s
    }
}

pub open spec fn drop_trailing_spaces(s: Seq<char>) -> Seq<char>
    decreases s.len(),
{
    if s.len() > 0 && is_space(s[s.len() - 1]) {
        drop_trailing_spaces(s.drop_last())
    } else {
        s
    }
}

/// A string with its leading and trailing white space removed.
pub open spec fn spec_trim(s: Seq<char>) -> Seq<char> {
    drop_trailing_spaces(drop_leading_spaces(s))
}

proof fn lemma_drop_leading_at(s: Seq<char>, i: int)
    requires
        0 <= i <= s.len(),
        forall|j: int| 0 <= j < i ==> is_space(s[j]),
        i < s.len() ==> !is_space(s[i]),
    ensures
        drop_leading_spaces(s) =~= s.skip(i),
    decreases i,
{
    if i > 0 {
        lemma_drop_leading_at(s.skip(1), i - 1);
        assert(s.skip(1).skip(i - 1) =~= s.skip(i));
    } else {
        if s.len() > 0 && is_space(s[0]) {
            assert(false);
        }
    }
}

proof fn lemma_drop_trailing_at(s: Seq<char>, j: int)
    requires
        0 <= j <= s.len(),
        forall|k: int| j <= k < s.len() ==> is_space(s[k]),
        j > 0 ==> !is_space(s[j - 1]),
    ensures
        drop_trailing_spaces(s) =~= s.take(j),
    decreases s.len(),
{
    if s.len() > 0 && is_space(s[s.len() - 1]) {
        lemma_drop_trailing_at(s.drop_last(), j);
        assert(s.drop_last().take(j) =~= s.take(j));
    } else {
        assert(s.take(s.len() as int) =~= s);
    }
}

/// Remove leading and trailing white space, as `str::trim` does.
pub fn trim(s: &str) -> (r: &str)
    ensures
        r@ == spec_trim(s@),
{
    let n = s.unicode_len();
    let mut i: usize = 0;
    while i < n && is_space_char(s.get_char(i))
        invariant
            0 <= i <= n == s@.len(),
            forall|j: int| 0 <= j < i ==> is_space(s@[j]),
        decreases n - i,
    {
        i += 1;
    }
    proof {
        lemma_drop_leading_at(s@, i as int);
    }
    let mut j: usize = n;
    while j > i && is_space_char(s.get_char(j - 1))
        invariant
            i <= j <= n == s@.len(),
            forall|k: int| j <= k < s@.len() ==> is_space(s@[k]),
        decreases j,
    {
        j -= 1;
    }
    proof {
        if j == i {
            lemma_drop_trailing_at(s@.skip(i as int), 0);
        } else {
            lemma_drop_trailing_at(s@.skip(i as int), j - i);
        }
        assert(s@.skip(i as int).take(j - i) =~= s@.subrange(i as int, j as int));
    }
    s.substring_char(i, j)
}

/// The characters of an optional text.
pub open spec fn opt_view(v: Option<String>) -> Option<Seq<char>> {
    match v {
        Option::None => Option::None,
        Option::Some(s) => Option::Some(s@),
    }
}

/// Index of the first occurrence of `sep`, or the whole length when none.
pub open spec fn first_sep(s: Seq<char>, sep: char) -> int
    decreases s.len(),
{
    if s.len() == 0 {
        0
    } else if s[0] == sep {
        0
    } else {
        1 + first_sep(s.skip(1), sep)
    }
}

proof fn lemma_first_sep_bounds(s: Seq<char>, sep: char)
    ensures
        0 <= first_sep(s, sep) <= s.len(),
    decreases s.len(),
{
    if s.len() > 0 && s[0] != sep {
        lemma_first_sep_bounds(s.skip(1), sep);
    }
}

proof fn lemma_first_sep_at(s: Seq<char>, sep: char, k: int)
    requires
        0 <= k <= s.len(),
        forall|j: int| 0 <= j < k ==> s[j] != sep,
        k < s.len() ==> s[k] == sep,
    ensures
        first_sep(s, sep) == k || (k == s.len() && first_sep(s, sep) == s.len()),
        first_sep(s, sep) == if k < s.len() {
            k
        } else {
            s.len() as int
        },
    decreases k,
{
    if s.len() > 0 && s[0] != sep {
        lemma_first_sep_at(s.skip(1), sep, k - 1);
    }
}

/// A scan that stopped at `k` pins down the first occurrence.
pub proof fn lemma_first_sep_at_pub(s: Seq<char>, sep: char, k: int)
    requires
        0 <= k <= s.len(),
        forall|j: int| 0 <= j < k ==> s[j] != sep,
        k < s.len() ==> s[k] == sep,
    ensures
        first_sep(s, sep) == if k < s.len() {
            k
        } else {
            s.len() as int
        },
{
    lemma_first_sep_at(s, sep, k);
}

/// The parts of `s` around every occurrence of `sep`, separators removed,
/// empty parts kept: what `str::split` yields.
pub open spec fn spec_split_char(s: Seq<char>, sep: char) -> Seq<Seq<char>>
    decreases s.len() via spec_split_char_decreases
{
    if first_sep(s, sep) == s.len() {
        seq![s]
    } else {
        seq![s.take(first_sep(s, sep))] + spec_split_char(s.skip(first_sep(s, sep) + 1), sep)
    }
}

#[via_fn]
proof fn spec_split_char_decreases(s: Seq<char>, sep: char) {
    lemma_first_sep_bounds(s, sep);
}

proof fn lemma_split_char_step(a: Seq<char>, b: Seq<char>, sep: char)
    requires
        forall|j: int| 0 <= j < a.len() ==> a[j] != sep,
    ensures
        spec_split_char(a + seq![sep] + b, sep) == seq![a] + spec_split_char(b, sep),
{
    let s = a + seq![sep] + b;
    assert(forall|j: int| 0 <= j < a.len() ==> s[j] != sep);
    assert(s[a.len() as int] == sep);
    lemma_first_sep_at(s, sep, a.len() as int);
    assert(s.take(a.len() as int) =~= a);
    assert(s.skip(a.len() as int + 1) =~= b);
}

proof fn lemma_split_char_last(a: Seq<char>, sep: char)
    requires
        forall|j: int| 0 <= j < a.len() ==> a[j] != sep,
    ensures
        spec_split_char(a, sep) == seq![a],
{
    lemma_first_sep_at(a, sep, a.len() as int);
}

/// Split on a separator character, empty parts kept, as `str::split` does.
pub fn split_str(s: &str, sep: char) -> (r: Vec<String>)
    ensures
        r.deep_view() == spec_split_char(s@, sep),
{
    let n = s.unicode_len();
    let mut out: Vec<String> = Vec::new();
    let ghost mut start: int = 0;
    let mut st: usize = 0;
    let mut i: usize = 0;
    proof {
        assert(s@.skip(0) =~= s@);
        assert(out.deep_view() + spec_split_char(s@, sep) =~= spec_split_char(s@, sep));
    }
    while i < n
        invariant
            0 <= st <= i <= n == s@.len(),
            start == st as int,
            forall|j: int| st <= j < i ==> s@[j] != sep,
            spec_split_char(s@, sep) == out.deep_view() + spec_split_char(
                s@.skip(start),
                sep,
            ),
        decreases n - i,
    {
        if s.get_char(i) == sep {
            let part = s.substring_char(st, i);
            out.push(String::from_str(part));
            proof {
                let a = s@.subrange(st as int, i as int);
                let b = s@.skip(i as int + 1);
                assert(s@.skip(start) =~= a + seq![sep] + b);
                lemma_split_char_step(a, b, sep);
                assert(out.deep_view() =~~= out.deep_view().drop_last().push(a));
                assert(out.deep_view().drop_last() + (seq![a] + spec_split_char(b, sep))
                    =~= out.deep_view() + spec_split_char(b, sep));
                start = i as int + 1;
            }
            st = i + 1;
        }
        i += 1;
    }
    let part = s.substring_char(st, n);
    out.push(String::from_str(part));
    proof {
        let a = s@.subrange(st as int, n as int);
        assert(s@.skip(start) =~= a);
        lemma_split_char_last(a, sep);
        assert(out.deep_view() =~~= out.deep_view().drop_last().push(a));
        assert(out.deep_view().drop_last() + seq![a] =~= out.deep_view());
    }
    out
}

/// The decimal digit character for `d`.
pub open spec fn spec_digit(d: int) -> char {
    if d == 0 {
        '0'
    } else if d == 1 {
        '1'
    } else if d == 2 {
        '2'
    } else if d == 3 {
        '3'
    } else if d == 4 {
        '4'
    } else if d == 5 {
        '5'
    } else if d == 6 {
        '6'
    } else if d == 7 {
        '7'
    } else if d == 8 {
        '8'
    } else {
        '9'
    }
}

/// The decimal digits of `n`, most significant first.
pub open spec fn spec_u64_chars(n: nat) -> Seq<char>
    decreases n,
{
    if n < 10 {
        seq![spec_digit(n as int)]
    } else {
        spec_u64_chars(n / 10).push(spec_digit((n % 10) as int))
    }
}

/// The decimal rendering of a signed value: a minus sign, then the digits.
pub open spec fn spec_i64_chars(n: int) -> Seq<char> {
    if n < 0 {
        seq!['-'] + spec_u64_chars((-n) as nat)
    } else {
        spec_u64_chars(n as nat)
    }
}

pub fn digit_str(d: u64) -> (r: &'static str)
    requires
        d < 10,
    ensures
        r@ == seq![spec_digit(d as int)],
{
    let r: &'static str = if d == 0 {
        "0"
    } else if d == 1 {
        "1"
    } else if d == 2 {
        "2"
    } else if d == 3 {
        "3"
    } else if d == 4 {
        "4"
    } else if d == 5 {
        "5"
    } else if d == 6 {
        "6"
    } else if d == 7 {
        "7"
    } else if d == 8 {
        "8"
    } else {
        "9"
    };
    proof {
        reveal_strlit("0");
        reveal_strlit("1");
        reveal_strlit("2");
        reveal_strlit("3");
        reveal_strlit("4");
        reveal_strlit("5");
        reveal_strlit("6");
        reveal_strlit("7");
        reveal_strlit("8");
        reveal_strlit("9");
        assert(r@ =~= seq![spec_digit(d as int)]);
    }
    r
}

/// Render an unsigned value in decimal.
pub fn u64_to_string(n: u64) -> (s: String)
    ensures
        s@ == spec_u64_chars(n as nat),
    decreases n,
{
    if n < 10 {
        String::from_str(digit_str(n))
    } else {
        let mut s = u64_to_string(n / 10);
        s.append(digit_str(n % 10));
        proof {
            assert(s@ =~= spec_u64_chars((n / 10) as nat).push(spec_digit((n % 10) as int)));
        }
        s
    }
}

/// Render a signed value in decimal.
pub fn i64_to_string(n: i64) -> (s: String)
    ensures
        s@ == spec_i64_chars(n as int),
{
    if n >= 0 {
        u64_to_string(n as u64)
    } else {
        let mag: u64 = ((-(n + 1)) as u64) + 1;
        let mut s = String::from_str("-");
        let digits = u64_to_string(mag);
        s.append(digits.as_str());
        proof {
            reveal_strlit("-");
            assert(mag as nat == (-(n as int)) as nat);
            assert(s@ =~= spec_i64_chars(n as int));
        }
        s
    }
}

pub open spec fn is_digit(c: char) -> bool {
    48 <= c as u32 && c as u32 <= 57
}

pub open spec fn all_digits(s: Seq<char>) -> bool {
    forall|i: int| 0 <= i < s.len() ==> is_digit(s[i])
}

/// The value of a sequence of decimal digit characters.
pub open spec fn digits_val(s: Seq<char>) -> int
    decreases s.len(),
{
    if s.len() == 0 {
        0
    } else {
        digits_val(s.drop_last()) * 10 + (s[s.len() - 1] as u32 - 48)
    }
}

/// What `str::parse::<i64>` accepts: an optional sign, then one or more
/// decimal digits, denoting a value in range.
pub open spec fn spec_parse_i64(s: Seq<char>) -> Option<i64> {
    let digits = if s.len() > 0 && (s[0] == '+' || s[0] == '-') {
        s.skip(1)
    } else {
        s
    };
    let v = if s.len() > 0 && s[0] == '-' {
        -digits_val(digits)
    } else {
        digits_val(digits)
    };
    if digits.len() == 0 || !all_digits(digits) {
        None
    } else if -0x8000000000000000 <= v && v <= 0x7fffffffffffffff {
        Some(v as i64)
    } else {
        None
    }
}

proof fn lemma_digits_val_nonneg(s: Seq<char>)
    requires
        all_digits(s),
    ensures
        digits_val(s) >= 0,
    decreases s.len(),
{
    if s.len() > 0 {
        assert(all_digits(s.drop_last()));
        lemma_digits_val_nonneg(s.drop_last());
    }
}

proof fn lemma_digits_val_grows(s: Seq<char>, i: int)
    requires
        all_digits(s),
        0 <= i <= s.len(),
    ensures
        digits_val(s) >= digits_val(s.take(i)),
    decreases s.len() - i,
{
    lemma_digits_val_nonneg(s.take(i));
    if i < s.len() {
        assert(s.take(i + 1).drop_last() =~= s.take(i));
        assert(all_digits(s.take(i + 1)));
        assert(digits_val(s.take(i + 1)) == digits_val(s.take(i)) * 10 + (s[i] as u32 - 48));
        lemma_digits_val_nonneg(s.take(i));
        lemma_digits_val_grows(s, i + 1);
    } else {
        assert(s.take(i) =~= s);
    }
}

/// Parse a decimal integer, as `str::parse::<i64>` does: `None` exactly on
/// malformed input or overflow.
pub fn parse_i64(s: &str) -> (r: Option<i64>)
    ensures
        r == spec_parse_i64(s@),
{
    let n = s.unicode_len();
    if n == 0 {
        return None;
    }
    let c0 = s.get_char(0);
    let negative = c0 == '-';
    let start: usize = if c0 == '-' || c0 == '+' {
        1
    } else {
        0
    };
    if n == start {
        return None;
    }
    let ghost digits = if s@[0] == '+' || s@[0] == '-' {
        s@.skip(1)
    } else {
        s@
    };
    // Accumulate the magnitude negated, so that the extreme negative value
    // stays representable.
    let mut acc: i64 = 0;
    let mut i: usize = start;
    while i < n
        invariant
            start <= i <= n == s@.len(),
            start == 0 || start == 1,
            start == 1 <==> s@.len() > 0 && (s@[0] == '+' || s@[0] == '-'),
            digits == (if s@[0] == '+' || s@[0] == '-' {
                s@.skip(1)
            } else {
                s@
            }),
            n > start,
            all_digits(digits.take(i - start)),
            acc == -digits_val(digits.take(i - start)),
            -0x8000000000000000 <= acc <= 0,
        decreases n - i,
    {
        let c = s.get_char(i);
        let u = c as u32;
        if u < 48 || u > 57 {
            proof {
                assert(digits[i - start] == s@[i as int]);
                assert(!all_digits(digits));
            }
            return None;
        }
        let d = (u - 48) as i64;
        proof {
            assert(digits.take(i + 1 - start).drop_last() =~= digits.take(i - start));
            assert(digits.take(i + 1 - start)[i - start] == s@[i as int]);
        }
        if acc < -922337203685477580 || (acc == -922337203685477580 && d > 8) {
            // The running magnitude already exceeds the representable range,
            // and further digits only increase it.
            proof {
                let m1 = digits_val(digits.take(i + 1 - start));
                assert(m1 == digits_val(digits.take(i - start)) * 10 + (s@[i as int] as u32 - 48));
                assert(m1 > 0x8000000000000000);
                if all_digits(digits) {
                    lemma_digits_val_grows(digits, i + 1 - start);
                    assert(digits_val(digits) >= m1);
                }
            }
            return None;
        }
        acc = acc * 10 - d;
        i += 1;
        proof {
            assert(digits.take(i - start) =~= digits.take(i - 1 - start).push(s@[i - 1]));
        }
    }
    proof {
        assert(digits.take(i - start) =~= digits);
    }
    if negative {
        Some(acc)
    } else {
        if acc == -0x8000000000000000 {
            // Magnitude one past the largest positive value.
            None
        } else {
            Some(-acc)
        }
    }
}

} // verus!
