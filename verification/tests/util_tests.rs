use multiparse::counter::count_newlines;
use multiparse::lines::{normalize_line, split_lines, trim_cr};
use multiparse::sizefmt::format_size;
use multiparse::textnum::{i64_to_string, parse_i64, split_str, trim, u64_to_string};

#[test]
fn split_lines_keeps_every_byte_once() {
    assert_eq!(
        split_lines(&b"a\nbb\n".to_vec()),
        vec![b"a\n".to_vec(), b"bb\n".to_vec()]
    );
    assert_eq!(
        split_lines(&b"a\nbb".to_vec()),
        vec![b"a\n".to_vec(), b"bb".to_vec()]
    );
    assert_eq!(split_lines(&b"".to_vec()), Vec::<Vec<u8>>::new());
    assert_eq!(
        split_lines(&b"\n\n".to_vec()),
        vec![b"\n".to_vec(), b"\n".to_vec()]
    );
    let data = b"one\r\ntwo\nthree".to_vec();
    let parts = split_lines(&data);
    let rejoined: Vec<u8> = parts.concat();
    assert_eq!(rejoined, data);
}

#[test]
fn newline_counter_matches_line_splitting() {
    let data = b"a\nbb\nccc".to_vec();
    assert_eq!(count_newlines(&data), 2);
    assert_eq!(split_lines(&data).len(), 3);
    assert_eq!(count_newlines(b""), 0);
    let chunk1 = b"a\nb";
    let chunk2 = b"\nc\n";
    assert_eq!(
        count_newlines(chunk1) + count_newlines(chunk2),
        count_newlines(b"a\nb\nc\n")
    );
}

#[test]
fn normalization_strips_terminators() {
    assert_eq!(normalize_line("abc\n"), "abc");
    assert_eq!(normalize_line("abc\r\n"), "abc");
    assert_eq!(normalize_line("abc\r"), "abc");
    assert_eq!(normalize_line("abc"), "abc");
    assert_eq!(normalize_line(""), "");
    assert_eq!(trim_cr("x\r"), "x");
    assert_eq!(trim_cr("x"), "x");
}

#[test]
fn trim_matches_std() {
    for s in ["  a b\t ", "", "   ", "x", "\u{a0}y\u{a0}", " inner  space "] {
        assert_eq!(trim(s), s.trim(), "trim mismatch on {:?}", s);
    }
}

#[test]
fn split_str_keeps_empty_parts() {
    assert_eq!(split_str("a,b,,c", ','), vec!["a", "b", "", "c"]);
    assert_eq!(split_str("", ','), vec![""]);
    assert_eq!(split_str(",", ','), vec!["", ""]);
}

#[test]
fn decimal_rendering_is_exact() {
    assert_eq!(u64_to_string(0), "0");
    assert_eq!(u64_to_string(42), "42");
    assert_eq!(u64_to_string(18446744073709551615), "18446744073709551615");
    assert_eq!(i64_to_string(0), "0");
    assert_eq!(i64_to_string(-42), "-42");
    assert_eq!(i64_to_string(-9223372036854775808), "-9223372036854775808");
    assert_eq!(i64_to_string(9223372036854775807), "9223372036854775807");
}

#[test]
fn integer_parsing_matches_std() {
    for s in [
        "0", "123", "-45", "+7", "", "-", "+", "12a", " 1", "9223372036854775807",
        "9223372036854775808", "-9223372036854775808", "-9223372036854775809",
        "99999999999999999999999",
    ] {
        assert_eq!(parse_i64(s), s.parse::<i64>().ok(), "parse mismatch on {:?}", s);
    }
}

#[test]
fn size_formatting_has_two_decimals() {
    assert_eq!(format_size(0), "0.00 B");
    assert_eq!(format_size(1023), "1023.00 B");
    assert_eq!(format_size(1024), "1.00 KiB");
    assert_eq!(format_size(1536), "1.50 KiB");
    assert_eq!(format_size(1048576), "1.00 MiB");
    assert_eq!(format_size(5 * 1024 * 1024 * 1024), "5.00 GiB");
    assert_eq!(format_size(1099511627776), "1.00 TiB");
}

#[test]
fn size_formatting_rounds_exact_ties_to_even() {
    // 1152 / 1024 = 1.125 exactly: two-decimal formatting gives 1.12
    assert_eq!(format_size(1152), format!("{:.2} KiB", 1152f64 / 1024f64));
    assert_eq!(format_size(1152), "1.12 KiB");
    // 1408 / 1024 = 1.375 exactly: the tie rounds up to the even 1.38
    assert_eq!(format_size(1408), format!("{:.2} KiB", 1408f64 / 1024f64));
    assert_eq!(format_size(1408), "1.38 KiB");
}
