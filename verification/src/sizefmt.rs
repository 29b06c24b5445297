use vstd::prelude::*;

verus! {

use crate::textnum::spec_u64_chars;
use crate::textnum::spec_digit;
use crate::textnum::u64_to_string;
use crate::textnum::digit_str;
use vstd::string::StringExecFns;

/// The divisor of the unit a size is reported in: the largest binary unit
/// the size reaches, capped at tebibytes.
pub open spec fn size_divisor(bytes: nat) -> nat {
    if bytes >= 0x10000000000 {
        0x10000000000
    } else if bytes >= 0x40000000 {
        0x40000000
    } else if bytes >= 0x100000 {
        0x100000
    } else if bytes >= 1024 {
        1024
    } else {
        1
    }
}

/// The unit's suffix.
pub open spec fn size_unit_chars(bytes: nat) -> Seq<char> {
    if bytes >= 0x10000000000 {
        "TiB"@
    } else if bytes >= 0x40000000 {
        "GiB"@
    } else if bytes >= 0x100000 {
        "MiB"@
    } else if bytes >= 1024 {
        "KiB"@
    } else {
        "B"@
    }
}

/// The value in hundredths of its unit, rounded to nearest with exact ties
/// going to the even hundredth, as two-decimal formatting rounds.
pub open spec fn spec_hundredths(bytes: nat) -> nat {
    let d = size_divisor(bytes);
    let q = (100 * bytes) / d;
    let r = (100 * bytes) % d;
    if 2 * r > d || (2 * r == d && q % 2 == 1) {
        q + 1
    } else {
        q
    }
}

/// A size rendered with two decimals in its unit: the hundredths written
/// as digits, point, two decimals, a space and the suffix.
pub open spec fn spec_format_size(bytes: nat) -> Seq<char> {
    let h = spec_hundredths(bytes);
    spec_u64_chars(h / 100) + seq!['.'] + seq![
        spec_digit((((h % 100) / 10)) as int),
        spec_digit((h % 10) as int),
        ' ',
    ] + size_unit_chars(bytes)
}

/// Render a byte count in a human-readable binary unit with two decimals.
pub fn format_size(bytes: u64) -> (r: String)
    ensures
        r@ == spec_format_size(bytes as nat),
{
    let d: u64 = if bytes >= 1099511627776 {
        1099511627776
    } else if bytes >= 1073741824 {
        1073741824
    } else if bytes >= 1048576 {
        1048576
    } else if bytes >= 1024 {
        1024
    } else {
        1
    };
    let unit: &'static str = if bytes >= 1099511627776 {
        "TiB"
    } else if bytes >= 1073741824 {
        "GiB"
    } else if bytes >= 1048576 {
        "MiB"
    } else if bytes >= 1024 {
        "KiB"
    } else {
        "B"
    };
    proof {
        assert(d as nat == size_divisor(bytes as nat));
        assert(unit@ == size_unit_chars(bytes as nat));
    }
    let num: u128 = 100u128 * (bytes as u128);
    proof {
        if d == 1099511627776 {
            assert(num < 0x80000000 * (d as u128)) by (nonlinear_arith)
                requires
                    num == 100 * (bytes as u128),
                    bytes <= 0xffffffffffffffffu64,
                    d == 1099511627776u64,
            ;
        } else {
            assert(bytes < 1024 * (d as u128));
            assert(num < 0x80000000 * (d as u128)) by (nonlinear_arith)
                requires
                    num == 100 * (bytes as u128),
                    (bytes as u128) < 1024 * (d as u128),
                    d >= 1,
            ;
        }
    }
    let q128: u128 = num / (d as u128);
    let r128: u128 = num % (d as u128);
    proof {
        assert(q128 < 0x80000000) by (nonlinear_arith)
            requires
                q128 == num / (d as u128),
                num < 0x80000000 * (d as u128),
                d >= 1,
        ;
        assert(r128 < d as u128);
    }
    let h128: u128 = if 2 * r128 > d as u128 || (2 * r128 == d as u128 && q128 % 2 == 1) {
        q128 + 1
    } else {
        q128
    };
    let h: u64 = h128 as u64;
    proof {
        assert(h as nat == spec_hundredths(bytes as nat));
    }
    let mut s = u64_to_string(h / 100);
    s.append(".");
    s.append(digit_str((h % 100) / 10));
    s.append(digit_str(h % 10));
    s.append(" ");
    s.append(unit);
    proof {
        reveal_strlit(".");
        reveal_strlit(" ");
        assert(s@ =~= spec_format_size(bytes as nat));
    }
    s
}

} // verus!
