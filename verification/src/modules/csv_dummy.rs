use vstd::prelude::*;

verus! {

use crate::json::json_quoted_of;
use crate::json::json_quote;
use crate::json::spec_json_str_array;
use crate::json::spec_json_pair_array;
use crate::json::all_quotable;
use crate::json::all_pairs_quotable;
use crate::json::json_array_of_strings;
use crate::json::json_array_of_pairs;
use crate::parser::Parser;
use crate::textnum::spec_trim;
use crate::textnum::trim;
use crate::textnum::opt_view;
use crate::textnum::spec_split_char;
use crate::textnum::split_str;
use vstd::string::StrSliceExecFns;
use vstd::string::StringExecFns;
use vstd::utf8::encode_utf8;

/// The fields the CSV reader yields for one line with the given delimiter,
/// or nothing when the line is not a well-formed record; a pure function
/// of the line and the delimiter.
pub uninterp spec fn csv_fields_of(line: Seq<char>, delim: u8) -> Option<Seq<Seq<char>>>;

/// Relies on the csv crate: a `ReaderBuilder` without headers and with the
/// given delimiter, reading one line, yields that line's first record as a
/// list of fields.
#[verifier::external_body]
fn csv_split(line: &str, delim: u8) -> (r: Option<Vec<String>>)
    ensures
        r matches Some(f) ==> csv_fields_of(line@, delim) == Some(f.deep_view()),
        r is None ==> csv_fields_of(line@, delim) is None,
{
    let mut rdr = csv::ReaderBuilder::new().has_headers(false).delimiter(delim).from_reader(
        line.as_bytes(),
    );
    let mut records = rdr.records();
    let rec = match records.next() {
        Some(Ok(r)) => r,
        _ => return None,
    };
    Some(rec.iter().map(|f| f.to_string()).collect())
}

/// Delimited-record transformation: each line becomes a JSON record, either
/// an array of columns or, when header names are configured, a list of
/// (header, value) pairs.
pub struct CsvDummy {
    pub headers: Option<Vec<String>>,
    pub delim: u8,
}

/// The header list read from a configuration text: parts split on commas,
/// trimmed, empty ones dropped; no list at all when nothing remains.
pub open spec fn spec_header_list(parts: Seq<Seq<char>>) -> Seq<Seq<char>>
    decreases parts.len(),
{
    if parts.len() == 0 {
        Seq::empty()
    } else {
        let rest = spec_header_list(parts.drop_last());
        let t = spec_trim(parts.last());
        if t.len() > 0 {
            rest.push(t)
        } else {
            rest
        }
    }
}

pub open spec fn spec_headers_config(h: Option<Seq<char>>) -> Option<Seq<Seq<char>>> {
    match h {
        Option::None => Option::None,
        Option::Some(s) => {
            let v = spec_header_list(spec_split_char(s, ','));
            if v.len() == 0 {
                Option::None
            } else {
                Option::Some(v)
            }
        },
    }
}

/// The delimiter byte read from a configuration text: the two-character
/// sequence backslash-t means tab, otherwise the first byte, with a comma
/// as the fallback.
pub open spec fn spec_delim_config(d: Option<Seq<char>>) -> u8 {
    match d {
        Option::None => 44u8,
        Option::Some(s) => {
            if s == seq!['\\', 't'] {
                9u8
            } else if encode_utf8(s).len() > 0 {
                encode_utf8(s)[0]
            } else {
                44u8
            }
        },
    }
}

impl CsvDummy {
    pub open spec fn spec_headers(&self) -> Option<Seq<Seq<char>>> {
        match self.headers {
            Option::None => Option::None,
            Option::Some(v) => Option::Some(v.deep_view()),
        }
    }

    pub open spec fn spec_delim(&self) -> u8 {
        self.delim
    }

    /// Build the transformation from the two optional configuration texts
    /// (header names, delimiter).
    pub fn new(headers_cfg: Option<String>, delim_cfg: Option<String>) -> (p: CsvDummy)
        ensures
            p.spec_headers() == spec_headers_config(opt_view(headers_cfg)),
            p.spec_delim() == spec_delim_config(opt_view(delim_cfg)),
    {
        let headers: Option<Vec<String>> = match &headers_cfg {
            Option::None => Option::None,
            Option::Some(h) => {
                let parts = split_str(h.as_str(), ',');
                let mut v: Vec<String> = Vec::new();
                let ghost partsv = parts.deep_view();
                let mut i: usize = 0;
                while i < parts.len()
                    invariant
                        partsv == parts.deep_view(),
                        partsv.len() == parts@.len(),
                        0 <= i <= parts@.len(),
                        v.deep_view() == spec_header_list(partsv.take(i as int)),
                    decreases parts@.len() - i,
                {
                    proof {
                        assert(partsv[i as int] =~= parts@[i as int]@);
                        assert(partsv.take(i as int + 1).drop_last() =~= partsv.take(i as int));
                    }
                    let t = trim(parts[i].as_str());
                    if t.unicode_len() > 0 {
                        v.push(String::from_str(t));
                        proof {
                            assert(v.deep_view() =~~= spec_header_list(partsv.take(i as int + 1)));
                        }
                    }
                    i += 1;
                }
                proof {
                    assert(partsv.take(i as int) =~= partsv);
                }
                if v.len() == 0 {
                    Option::None
                } else {
                    Option::Some(v)
                }
            },
        };
        let delim: u8 = match &delim_cfg {
            Option::None => 44u8,
            Option::Some(d) => {
                let n = d.as_str().unicode_len();
                if n == 2 && d.as_str().get_char(0) == '\\' && d.as_str().get_char(1) == 't' {
                    proof {
                        assert(d@ =~= seq!['\\', 't']);
                    }
                    9u8
                } else {
                    proof {
                        assert(d@ != seq!['\\', 't']);
                    }
                    let bytes = d.as_str().as_bytes_vec();
                    if bytes.len() > 0 {
                        bytes[0]
                    } else {
                        44u8
                    }
                }
            },
        };
        CsvDummy { headers, delim }
    }
}

/// One parsed line: the columns as plain values, beside the raw line text.
pub enum CsvRecord {
    Array { cols: Vec<String>, raw: String },
    WithHeaders { cols: Vec<(String, String)>, raw: String },
}

/// The spec-level shape of a parsed line.
pub enum CsvRecordModel {
    Array { cols: Seq<Seq<char>>, raw: Seq<char> },
    WithHeaders { cols: Seq<(Seq<char>, Seq<char>)>, raw: Seq<char> },
}

impl CsvRecord {
    pub open spec fn model(&self) -> CsvRecordModel {
        match self {
            CsvRecord::Array { cols, raw } => CsvRecordModel::Array {
                cols: cols.deep_view(),
                raw: raw@,
            },
            CsvRecord::WithHeaders { cols, raw } => CsvRecordModel::WithHeaders {
                cols: cols.deep_view(),
                raw: raw@,
            },
        }
    }
}

/// Pair each field with its header, or with `_extra` past the header list.
pub open spec fn spec_pairs(h: Seq<Seq<char>>, f: Seq<Seq<char>>) -> Seq<(Seq<char>, Seq<char>)> {
    Seq::new(
        f.len(),
        |i: int|
            (
                if i < h.len() {
                    h[i]
                } else {
                    "_extra"@
                },
                f[i],
            ),
    )
}

/// What one line parses to, given the configuration: the fields the CSV
/// reader yields, shaped by the presence of headers; the raw line is kept.
pub open spec fn spec_parse_line(
    headers: Option<Seq<Seq<char>>>,
    delim: u8,
    line: Seq<char>,
) -> Option<CsvRecordModel> {
    match csv_fields_of(line, delim) {
        Option::None => Option::None,
        Option::Some(f) => Option::Some(
            match headers {
                Option::Some(h) => CsvRecordModel::WithHeaders {
                    cols: spec_pairs(h, f),
                    raw: line,
                },
                Option::None => CsvRecordModel::Array { cols: f, raw: line },
            },
        ),
    }
}

impl CsvDummy {
    /// Parse one line into a record.
    pub fn parse_line(&self, line: &str) -> (r: Option<CsvRecord>)
        ensures
            r is Some <==> spec_parse_line(self.spec_headers(), self.spec_delim(), line@) is Some,
            r matches Some(rec) ==> Some(rec.model()) == spec_parse_line(
                self.spec_headers(),
                self.spec_delim(),
                line@,
            ),
    {
        let fields = match csv_split(line, self.delim) {
            Option::None => {
                return Option::None;
            },
            Option::Some(f) => f,
        };
        match &self.headers {
            Option::Some(hdrs) => {
                let ghost hv = hdrs.deep_view();
                let ghost fv = fields.deep_view();
                let mut pairs: Vec<(String, String)> = Vec::new();
                let mut i: usize = 0;
                while i < fields.len()
                    invariant
                        hv == hdrs.deep_view(),
                        fv == fields.deep_view(),
                        hv.len() == hdrs@.len(),
                        fv.len() == fields@.len(),
                        0 <= i <= fields@.len(),
                        pairs.deep_view() =~= spec_pairs(hv, fv).take(i as int),
                    decreases fields@.len() - i,
                {
                    proof {
                        assert(fv[i as int] =~= fields@[i as int]@);
                    }
                    let key: String = if i < hdrs.len() {
                        proof {
                            assert(hv[i as int] =~= hdrs@[i as int]@);
                        }
                        hdrs[i].clone()
                    } else {
                        let k = String::from_str("_extra");
                        k
                    };
                    let val = fields[i].clone();
                    let ghost kv = key@;
                    let ghost vv = val@;
                    let ghost prev = pairs.deep_view();
                    pairs.push((key, val));
                    proof {
                        let sp = spec_pairs(hv, fv);
                        assert(sp.len() == fv.len());
                        assert(sp.take(i as int).len() == i as int);
                        assert(prev.len() == i as int);
                        assert(pairs@.len() == i + 1);
                        assert(pairs.deep_view().len() == i + 1);
                        assert(pairs@[i as int].0@ == kv);
                        assert(pairs@[i as int].1@ == vv);
                        assert(pairs.deep_view()[i as int] == pairs@[i as int].deep_view());
                        assert(pairs.deep_view()[i as int] == (kv, vv));
                        assert(kv == sp[i as int].0);
                        assert(vv == sp[i as int].1);
                        assert forall|j: int| 0 <= j < i + 1 implies pairs.deep_view()[j]
                            == sp.take(i as int + 1)[j] by {
                            if j < i {
                                assert(pairs.deep_view()[j] == prev[j]);
                                assert(prev[j] == sp.take(i as int)[j]);
                            } else {
                                assert(sp.take(i as int + 1)[j] == sp[j]);
                                assert(sp[j] == (sp[j].0, sp[j].1));
                            }
                        }
                        assert(pairs.deep_view() =~= sp.take(i as int + 1));
                    }
                    i += 1;
                }
                proof {
                    assert(spec_pairs(hv, fv).take(i as int) =~= spec_pairs(hv, fv));
                }
                Option::Some(
                    CsvRecord::WithHeaders { cols: pairs, raw: String::from_str(line) },
                )
            },
            Option::None => {
                Option::Some(CsvRecord::Array { cols: fields, raw: String::from_str(line) })
            },
        }
    }
}

/// The JSON rendering of a record: an object holding the columns and the
/// raw line, in that order.
pub open spec fn spec_encode_record(m: CsvRecordModel) -> Option<Seq<char>> {
    match m {
        CsvRecordModel::Array { cols, raw } => {
            if all_quotable(cols) && json_quoted_of(raw) is Some {
                Option::Some(
                    "{\"cols\":"@ + spec_json_str_array(cols) + ",\"raw\":"@ + json_quoted_of(
                        raw,
                    )->0 + "}"@,
                )
            } else {
                Option::None
            }
        },
        CsvRecordModel::WithHeaders { cols, raw } => {
            if all_pairs_quotable(cols) && json_quoted_of(raw) is Some {
                Option::Some(
                    "{\"cols\":"@ + spec_json_pair_array(cols) + ",\"raw\":"@ + json_quoted_of(
                        raw,
                    )->0 + "}"@,
                )
            } else {
                Option::None
            }
        },
    }
}

/// Render one record as its JSON object.
pub fn encode_record(rec: &CsvRecord) -> (r: Option<String>)
    ensures
        r is Some <==> spec_encode_record(rec.model()) is Some,
        r matches Some(q) ==> Some(q@) == spec_encode_record(rec.model()),
{
    let mut out = String::from_str("{\"cols\":");
    let arr = match rec {
        CsvRecord::Array { cols, raw: _ } => json_array_of_strings(cols),
        CsvRecord::WithHeaders { cols, raw: _ } => json_array_of_pairs(cols),
    };
    let arr = match arr {
        Option::None => {
            return Option::None;
        },
        Option::Some(a) => a,
    };
    let rawq = match rec {
        CsvRecord::Array { cols: _, raw } => json_quote(raw.as_str()),
        CsvRecord::WithHeaders { cols: _, raw } => json_quote(raw.as_str()),
    };
    let rawq = match rawq {
        Option::None => {
            return Option::None;
        },
        Option::Some(q) => q,
    };
    out.append(arr.as_str());
    out.append(",\"raw\":");
    out.append(rawq.as_str());
    out.append("}");
    proof {
        assert(out@ =~= spec_encode_record(rec.model())->0);
    }
    Option::Some(out)
}

impl Parser for CsvDummy {
    open spec fn wf(&self) -> bool {
        true
    }

    open spec fn spec_emits(&self, line: Seq<char>) -> bool {
        &&& spec_trim(line).len() > 0
        &&& spec_parse_line(self.spec_headers(), self.spec_delim(), line) is Some
        &&& spec_encode_record(spec_parse_line(self.spec_headers(), self.spec_delim(), line)->0)
            is Some
    }

    open spec fn spec_record(&self, line: Seq<char>) -> Seq<u8> {
        encode_utf8(
            spec_encode_record(spec_parse_line(self.spec_headers(), self.spec_delim(), line)->0)->0,
        )
    }

    open spec fn spec_name(&self) -> Seq<char> {
        "csv-dummy"@
    }

    open spec fn spec_description(&self) -> Seq<char> {
        "CSV -> JSONL (stateless per-line; optional headers)"@
    }

    fn name(&self) -> (r: String) {
        String::from_str("csv-dummy")
    }

    fn description(&self) -> (r: String) {
        String::from_str("CSV -> JSONL (stateless per-line; optional headers)")
    }

    fn process_line_to_buf(&self, line: &str, out: &mut Vec<u8>) -> (r: bool) {
        let t = trim(line);
        if t.unicode_len() == 0 {
            return false;
        }
        match self.parse_line(line) {
            Option::None => false,
            Option::Some(rec) => {
                match encode_record(&rec) {
                    Option::None => false,
                    Option::Some(js) => {
                        let bytes = js.as_str().as_bytes_vec();
                        out.extend_from_slice(bytes.as_slice());
                        true
                    },
                }
            },
        }
    }
}

} // verus!
