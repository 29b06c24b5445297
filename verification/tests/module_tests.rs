use multiparse::modules::csv_dummy::{CsvDummy, CsvRecord};
use multiparse::modules::web_access::{self, fast_time_config, parse_request, to_int};
use multiparse::parser::Parser;
use multiparse::registry::{registry, AnyParser};

#[test]
fn access_log_example_scenario() {
    let w = web_access::new(false);
    let line = "203.0.113.5 - - [10/Oct/2000:13:55:36 -0700] \"GET /a?x=1 HTTP/1.1\" 200 512 \"-\" \"curl/7\"";
    let rec = w.ctx.parse_line(line).expect("line must parse");
    assert_eq!(rec.ip.as_deref(), Some("203.0.113.5"));
    assert_eq!(rec.ident, None);
    assert_eq!(rec.user, None);
    assert_eq!(rec.method.as_deref(), Some("GET"));
    assert_eq!(rec.target.as_deref(), Some("/a?x=1"));
    assert_eq!(rec.path.as_deref(), Some("/a"));
    assert_eq!(rec.query.as_deref(), Some("x=1"));
    assert_eq!(rec.protocol.as_deref(), Some("HTTP/1.1"));
    assert_eq!(rec.status, Some(200));
    assert_eq!(rec.bytes, Some(512));
    assert_eq!(rec.referer, None);
    assert_eq!(rec.user_agent.as_deref(), Some("curl/7"));
    assert_eq!(rec.ts_raw.as_deref(), Some("10/Oct/2000:13:55:36 -0700"));
    assert_eq!(rec.ts.as_deref(), Some("2000-10-10T20:55:36Z"));
}

#[test]
fn access_log_common_format_without_referer() {
    let w = web_access::new(true);
    let line = "10.0.0.1 - frank [10/Oct/2000:13:55:36 -0700] \"GET /index.html HTTP/1.0\" 200 2326";
    let rec = w.ctx.parse_line(line).expect("line must parse");
    assert_eq!(rec.ip.as_deref(), Some("10.0.0.1"));
    assert_eq!(rec.user.as_deref(), Some("frank"));
    assert_eq!(rec.referer, None);
    assert_eq!(rec.user_agent, None);
    assert_eq!(rec.ts, None, "fast-time mode skips timestamp conversion");
    assert_eq!(rec.status, Some(200));
    assert_eq!(rec.bytes, Some(2326));
}

#[test]
fn access_log_emits_one_json_line() {
    let w = web_access::new(true);
    let line = "203.0.113.5 - - [10/Oct/2000:13:55:36 -0700] \"GET /a HTTP/1.1\" 200 512 \"-\" \"curl/7\"";
    let mut out: Vec<u8> = Vec::new();
    assert!(w.process_line_to_buf(line, &mut out));
    let s = String::from_utf8(out).unwrap();
    assert!(s.starts_with("{\"ip\":\"203.0.113.5\","));
    assert!(s.contains("\"status\":200"));
    assert!(s.contains("\"referer\":null"));
    assert!(!s.contains('\n'));
}

#[test]
fn access_log_rejects_garbage() {
    let w = web_access::new(true);
    assert!(w.ctx.parse_line("not an access log line").is_none());
    assert!(w.ctx.parse_line("").is_none());
    assert!(w.ctx.parse_line("   ").is_none());
    let mut out: Vec<u8> = Vec::new();
    assert!(!w.process_line_to_buf("nope", &mut out));
    assert!(out.is_empty());
}

#[test]
fn parse_request_shapes() {
    let (m, t, p, q, pr) = parse_request("GET /a?x=1 HTTP/1.1");
    assert_eq!(m.as_deref(), Some("GET"));
    assert_eq!(t.as_deref(), Some("/a?x=1"));
    assert_eq!(p.as_deref(), Some("/a"));
    assert_eq!(q.as_deref(), Some("x=1"));
    assert_eq!(pr.as_deref(), Some("HTTP/1.1"));

    let (m, t, p, q, pr) = parse_request("GET /plain");
    assert_eq!(m.as_deref(), Some("GET"));
    assert_eq!(t.as_deref(), Some("/plain"));
    assert_eq!(p.as_deref(), Some("/plain"));
    assert_eq!(q, None);
    assert_eq!(pr, None);

    let (m, t, p, _q, pr) = parse_request("justone");
    assert_eq!(m, None);
    assert_eq!(t.as_deref(), Some("justone"));
    assert_eq!(p.as_deref(), Some("justone"));
    assert_eq!(pr, None);

    let (m, t, p, q, pr) = parse_request("GET /a b/c HTTP/1.1");
    assert_eq!(m.as_deref(), Some("GET"));
    assert_eq!(t.as_deref(), Some("/a b/c"));
    assert_eq!(p.as_deref(), Some("/a b/c"));
    assert_eq!(q, None);
    assert_eq!(pr.as_deref(), Some("HTTP/1.1"));

    let (m, t, p, q, pr) = parse_request("OPTIONS * HTTP/1.0");
    assert_eq!(m.as_deref(), Some("OPTIONS"));
    assert_eq!(t.as_deref(), Some("*"));
    assert_eq!(p.as_deref(), Some("*"));
    assert_eq!(q, None);
    assert_eq!(pr.as_deref(), Some("HTTP/1.0"));

    let (m, t, p, q, pr) = parse_request("-");
    assert_eq!((m, t, p, q, pr), (None, None, None, None, None));

    let (_, t, _, q, _) = parse_request("GET /a? HTTP/1.1");
    assert_eq!(t.as_deref(), Some("/a?"));
    assert_eq!(q, None, "empty query after the question mark is dropped");
}

#[test]
fn out_of_range_timestamp_conversion_is_dropped_not_fatal() {
    let w = web_access::new(false);
    // year 9999 at -01:00 reaches year 10000 in UTC, beyond the supported
    // range: the record is still emitted, with no converted timestamp
    let line = "10.0.0.1 - - [31/Dec/9999:23:59:59 -0100] \"GET / HTTP/1.0\" 200 1";
    let rec = w.ctx.parse_line(line).expect("line must parse");
    assert_eq!(rec.ts, None);
    assert_eq!(rec.ts_raw.as_deref(), Some("31/Dec/9999:23:59:59 -0100"));
    let mut out: Vec<u8> = Vec::new();
    assert!(w.process_line_to_buf(line, &mut out));
    assert!(String::from_utf8(out).unwrap().contains("\"ts\":null"));
}

#[test]
fn fast_time_switch_reads_its_configuration_text() {
    assert!(fast_time_config(Some("1".to_string())));
    assert!(fast_time_config(Some("true".to_string())));
    assert!(fast_time_config(Some("TRUE".to_string())));
    assert!(fast_time_config(Some("tRuE".to_string())));
    assert!(!fast_time_config(Some("0".to_string())));
    assert!(!fast_time_config(Some("yes".to_string())));
    assert!(!fast_time_config(Some("".to_string())));
    assert!(!fast_time_config(None));
}

#[test]
fn to_int_handles_dash_and_numbers() {
    assert_eq!(to_int(Some("200")), Some(200));
    assert_eq!(to_int(Some("-")), None);
    assert_eq!(to_int(Some("abc")), None);
    assert_eq!(to_int(None), None);
    assert_eq!(to_int(Some("-7")), Some(-7));
}

#[test]
fn delimited_records_with_headers_scenario() {
    let c = CsvDummy::new(Some("a,b,c".to_string()), None);
    match c.parse_line("1,2,3").expect("must parse") {
        CsvRecord::WithHeaders { cols, raw } => {
            let got: Vec<(String, String)> = cols;
            assert_eq!(
                got,
                vec![
                    ("a".to_string(), "1".to_string()),
                    ("b".to_string(), "2".to_string()),
                    ("c".to_string(), "3".to_string())
                ]
            );
            assert_eq!(raw, "1,2,3");
        },
        CsvRecord::Array { .. } => panic!("headers were configured"),
    }
}

#[test]
fn delimited_records_extra_columns_get_placeholder_key() {
    let c = CsvDummy::new(Some("a".to_string()), None);
    match c.parse_line("1,2").expect("must parse") {
        CsvRecord::WithHeaders { cols, .. } => {
            assert_eq!(cols[0], ("a".to_string(), "1".to_string()));
            assert_eq!(cols[1], ("_extra".to_string(), "2".to_string()));
        },
        CsvRecord::Array { .. } => panic!("headers were configured"),
    }
}

#[test]
fn delimited_records_without_headers_are_arrays() {
    let c = CsvDummy::new(None, None);
    let mut out: Vec<u8> = Vec::new();
    assert!(c.process_line_to_buf("1,2,3", &mut out));
    assert_eq!(
        String::from_utf8(out).unwrap(),
        "{\"cols\":[\"1\",\"2\",\"3\"],\"raw\":\"1,2,3\"}"
    );
}

#[test]
fn header_configuration_is_trimmed_and_filtered() {
    let c = CsvDummy::new(Some(" a , ,b ,".to_string()), None);
    match c.parse_line("1,2").expect("must parse") {
        CsvRecord::WithHeaders { cols, .. } => {
            assert_eq!(cols[0].0, "a");
            assert_eq!(cols[1].0, "b");
        },
        CsvRecord::Array { .. } => panic!("headers were configured"),
    }
    let empty = CsvDummy::new(Some(" , ,".to_string()), None);
    match empty.parse_line("1").expect("must parse") {
        CsvRecord::Array { .. } => {},
        CsvRecord::WithHeaders { .. } => panic!("all headers were blank"),
    }
}

#[test]
fn delimiter_configuration() {
    let tab = CsvDummy::new(None, Some("\\t".to_string()));
    match tab.parse_line("1\t2").expect("must parse") {
        CsvRecord::Array { cols, .. } => assert_eq!(cols, vec!["1", "2"]),
        _ => panic!(),
    }
    let semi = CsvDummy::new(None, Some(";".to_string()));
    match semi.parse_line("1;2").expect("must parse") {
        CsvRecord::Array { cols, .. } => assert_eq!(cols, vec!["1", "2"]),
        _ => panic!(),
    }
}

#[test]
fn blank_lines_emit_nothing() {
    let c = CsvDummy::new(None, None);
    let mut out: Vec<u8> = Vec::new();
    assert!(!c.process_line_to_buf("", &mut out));
    assert!(!c.process_line_to_buf("   \t ", &mut out));
    assert!(out.is_empty());
}

#[test]
fn registry_lists_both_transformations() {
    let r = registry();
    assert_eq!(r.len(), 2);
    let names: Vec<String> = r.iter().map(|p| p.name()).collect();
    assert_eq!(names, vec!["web-access".to_string(), "csv-dummy".to_string()]);
    for p in &r {
        assert!(!p.description().is_empty());
    }
    match &r[0] {
        AnyParser::Web(_) => {},
        AnyParser::Csv(_) => panic!("web-access is listed first"),
    }
}
