use vstd::prelude::*;

verus! {

use crate::json::json_quoted_of;
use crate::json::json_quote;
use crate::lines::spec_trim_cr;
use crate::lines::trim_cr;
use crate::parser::Parser;
use crate::textnum::spec_trim;
use crate::textnum::trim;
use crate::textnum::opt_view;
use crate::textnum::first_sep;
use crate::textnum::spec_parse_i64;
use crate::textnum::parse_i64;
use crate::textnum::spec_i64_chars;
use crate::textnum::i64_to_string;
use vstd::string::StrSliceExecFns;
use vstd::string::StringExecFns;
use vstd::utf8::encode_utf8;

/// For each capture group of the pattern, in order (group 0 the whole
/// match), what it captured from the text; nothing when the pattern does
/// not compile or does not match. A pure function of pattern and text.
pub uninterp spec fn regex_captures_of(pattern: Seq<char>, line: Seq<char>) -> Option<
    Seq<Option<Seq<char>>>,
>;

/// Relies on regex::Regex::new and Regex::captures: matching is a pure
/// function of the pattern and the text.
#[verifier::external_body]
fn regex_captures(pattern: &str, line: &str) -> (r: Option<Vec<Option<String>>>)
    ensures
        r matches Some(c) ==> regex_captures_of(pattern@, line@) == Some(c.deep_view()),
        r is None ==> regex_captures_of(pattern@, line@) is None,
{
    let re = match regex::Regex::new(pattern) {
        Ok(re) => re,
        Err(_) => return None,
    };
    let caps = re.captures(line)?;
    Some(caps.iter().map(|m| m.map(|mm| mm.as_str().to_string())).collect())
}

/// The text parsed with the given format description, converted to UTC and
/// rendered as RFC 3339; nothing when any step fails. A pure function of
/// format and text.
pub uninterp spec fn utc_rfc3339_of(fmt: Seq<char>, s: Seq<char>) -> Option<Seq<char>>;

/// Relies on the time crate: format_description::parse,
/// OffsetDateTime::parse, checked_to_offset and format are pure functions
/// of the format description and the text; a conversion that would leave
/// the supported date range yields nothing rather than aborting.
#[verifier::external_body]
fn format_log_time(fmt: &str, s: &str) -> (r: Option<String>)
    ensures
        r matches Some(q) ==> utc_rfc3339_of(fmt@, s@) == Some(q@),
        r is None ==> utc_rfc3339_of(fmt@, s@) is None,
{
    let items = match time::format_description::parse(fmt) {
        Ok(i) => i,
        Err(_) => return None,
    };
    let dt = match time::OffsetDateTime::parse(s, &items) {
        Ok(d) => d,
        Err(_) => return None,
    };
    let utc = dt.checked_to_offset(time::UtcOffset::UTC)?;
    utc.format(&time::format_description::well_known::Rfc3339).ok()
}

/// Whether a configuration text turns on fast-time mode: exactly `1`, or
/// `true` ignoring ASCII case.
pub open spec fn spec_fast_time_config(v: Option<Seq<char>>) -> bool {
    match v {
        Option::None => false,
        Option::Some(s) => s == "1"@ || (s.len() == 4 && (s[0] == 't' || s[0] == 'T') && (s[1]
            == 'r' || s[1] == 'R') && (s[2] == 'u' || s[2] == 'U') && (s[3] == 'e' || s[3] == 'E')),
    }
}

/// Read the fast-time switch from its configuration text.
pub fn fast_time_config(v: Option<String>) -> (r: bool)
    ensures
        r == spec_fast_time_config(opt_view(v)),
{
    proof {
        reveal_strlit("1");
    }
    match &v {
        Option::None => false,
        Option::Some(s) => {
            let n = s.as_str().unicode_len();
            if n == 1 && s.as_str().get_char(0) == '1' {
                proof {
                    assert(s@ =~= "1"@);
                }
                true
            } else if n == 4 {
                let c0 = s.as_str().get_char(0);
                let c1 = s.as_str().get_char(1);
                let c2 = s.as_str().get_char(2);
                let c3 = s.as_str().get_char(3);
                (c0 == 't' || c0 == 'T') && (c1 == 'r' || c1 == 'R') && (c2 == 'u' || c2 == 'U')
                    && (c3 == 'e' || c3 == 'E')
            } else {
                proof {
                    assert(s@ != "1"@);
                }
                false
            }
        },
    }
}

/// The combined (access log with referer and user agent) pattern.
pub open spec fn combined_pattern() -> Seq<char> {
    "^(?P<ip>\\S+) (?P<ident>\\S+) (?P<user>\\S+) \\[(?P<time>[^\\]]+)\\] \"(?P<request>[^\"]*)\" (?P<status>\\d{3}|-) (?P<size>\\S+) \"(?P<referer>[^\"]*)\" \"(?P<agent>[^\"]*)\"$"@
}

/// The common (no referer or user agent) pattern.
pub open spec fn common_pattern() -> Seq<char> {
    "^(?P<ip>\\S+) (?P<ident>\\S+) (?P<user>\\S+) \\[(?P<time>[^\\]]+)\\] \"(?P<request>[^\"]*)\" (?P<status>\\d{3}|-) (?P<size>\\S+)$"@
}

/// The access-log timestamp layout.
pub open spec fn time_format() -> Seq<char> {
    "[day]/[month repr:short]/[year]:[hour]:[minute]:[second] [offset_hour sign:mandatory][offset_minute]"@
}

/// The capture group at an index, when the match has one.
pub open spec fn group(c: Seq<Option<Seq<char>>>, i: int) -> Option<Seq<char>> {
    if 0 <= i < c.len() {
        c[i]
    } else {
        Option::None
    }
}

/// A captured value with the placeholder dash mapped to absence.
pub open spec fn nondash(v: Option<Seq<char>>) -> Option<Seq<char>> {
    match v {
        Option::Some(s) => if s == "-"@ {
            Option::None
        } else {
            Option::Some(s)
        },
        Option::None => Option::None,
    }
}

/// A size or status column: absent when dashed, else parsed as an integer.
pub open spec fn spec_to_int(v: Option<Seq<char>>) -> Option<i64> {
    match v {
        Option::None => Option::None,
        Option::Some(s) => if s == "-"@ {
            Option::None
        } else {
            spec_parse_i64(s)
        },
    }
}

/// Absent when dashed, else parsed as an integer.
pub fn to_int(s: Option<&str>) -> (r: Option<i64>)
    ensures
        r == spec_to_int(
            match s {
                Option::Some(x) => Option::Some(x@),
                Option::None => Option::None,
            },
        ),
{
    proof {
        reveal_strlit("-");
    }
    match s {
        Option::None => Option::None,
        Option::Some(x) => {
            if x.unicode_len() == 1 && x.get_char(0) == '-' {
                proof {
                    assert(x@ =~= "-"@);
                }
                Option::None
            } else {
                proof {
                    assert(x@ != "-"@);
                }
                parse_i64(x)
            }
        },
    }
}

/// The request column taken apart: method, target, path, query, protocol.
pub struct ReqParts {
    pub method: Option<Seq<char>>,
    pub target: Option<Seq<char>>,
    pub path: Option<Seq<char>>,
    pub query: Option<Seq<char>>,
    pub protocol: Option<Seq<char>>,
}

/// Index of the last occurrence of `sep`, or -1 when none.
pub open spec fn last_sep(s: Seq<char>, sep: char) -> int
    decreases s.len(),
{
    if s.len() == 0 {
        -1
    } else if s[s.len() - 1] == sep {
        s.len() - 1
    } else {
        last_sep(s.drop_last(), sep)
    }
}

proof fn lemma_last_sep_at(s: Seq<char>, sep: char, k: int)
    requires
        -1 <= k < s.len(),
        k >= 0 ==> s[k] == sep,
        forall|j: int| k < j < s.len() ==> s[j] != sep,
    ensures
        last_sep(s, sep) == k,
    decreases s.len(),
{
    if s.len() > 0 && s[s.len() - 1] != sep {
        lemma_last_sep_at(s.drop_last(), sep, k);
    }
}

/// How a request column is taken apart. With two or more spaces the method
/// is the text before the first, the protocol the text after the last, the
/// target everything between; with one space there is no protocol; with
/// none the whole text is the target. The path is the target up to the
/// first question mark, the query what follows it; a sole `*` stands as
/// its own path.
pub open spec fn spec_parse_request(req: Seq<char>) -> ReqParts {
    if req.len() == 0 || req == "-"@ {
        ReqParts {
            method: Option::None,
            target: Option::None,
            path: Option::None,
            query: Option::None,
            protocol: Option::None,
        }
    } else {
        let a = first_sep(req, ' ');
        let b = last_sep(req, ' ');
        let method = if a == req.len() {
            Option::None
        } else {
            Option::Some(req.take(a))
        };
        let target = if a == req.len() {
            Option::Some(req)
        } else if a == b {
            Option::Some(req.skip(a + 1))
        } else {
            Option::Some(req.subrange(a + 1, b))
        };
        let protocol = if a < b {
            Option::Some(req.skip(b + 1))
        } else {
            Option::None
        };
        let t = target->0;
        let q = first_sep(t, '?');
        let path = if t == "*"@ {
            Option::Some(t)
        } else if q == t.len() {
            Option::Some(t)
        } else {
            Option::Some(t.take(q))
        };
        let query = if t == "*"@ || q == t.len() || q + 1 >= t.len() {
            Option::None
        } else {
            Option::Some(t.skip(q + 1))
        };
        ReqParts { method, target, path, query, protocol }
    }
}

/// Take a request column apart into method, target, path, query, protocol.
pub fn parse_request(req: &str) -> (r: (
    Option<String>,
    Option<String>,
    Option<String>,
    Option<String>,
    Option<String>,
))
    ensures
        ({
            let m = spec_parse_request(req@);
            &&& opt_view(r.0) == m.method
            &&& opt_view(r.1) == m.target
            &&& opt_view(r.2) == m.path
            &&& opt_view(r.3) == m.query
            &&& opt_view(r.4) == m.protocol
        }),
{
    proof {
        reveal_strlit("-");
        reveal_strlit("*");
    }
    let n = req.unicode_len();
    if n == 0 || (n == 1 && req.get_char(0) == '-') {
        proof {
            if n != 0 {
                assert(req@ =~= "-"@);
            }
        }
        return (Option::None, Option::None, Option::None, Option::None, Option::None);
    }
    proof {
        assert(req@ != "-"@);
    }
    // first space
    let mut a: usize = 0;
    while a < n && req.get_char(a) != ' '
        invariant
            0 <= a <= n == req@.len(),
            forall|j: int| 0 <= j < a ==> req@[j] != ' ',
        decreases n - a,
    {
        a += 1;
    }
    proof {
        crate::textnum::lemma_first_sep_at_pub(req@, ' ', a as int);
    }
    // last space
    let mut bp: usize = n;
    while bp > 0 && req.get_char(bp - 1) != ' '
        invariant
            0 <= bp <= n == req@.len(),
            forall|j: int| bp <= j < n ==> req@[j] != ' ',
        decreases bp,
    {
        bp -= 1;
    }
    proof {
        lemma_last_sep_at(req@, ' ', bp as int - 1);
    }
    let ghost m = spec_parse_request(req@);
    let method: Option<String> = if a == n {
        Option::None
    } else {
        Option::Some(String::from_str(req.substring_char(0, a)))
    };
    let target: String = if a == n {
        String::from_str(req)
    } else if a + 1 == bp {
        String::from_str(req.substring_char(a + 1, n))
    } else {
        String::from_str(req.substring_char(a + 1, bp - 1))
    };
    let protocol: Option<String> = if a < n && a + 1 < bp {
        Option::Some(String::from_str(req.substring_char(bp, n)))
    } else {
        Option::None
    };
    proof {
        let b = last_sep(req@, ' ');
        assert(b == bp as int - 1);
        if a as int == req@.len() {
            assert(target@ =~= m.target->0);
        } else if a as int == b {
            assert(target@ =~= req@.skip(a as int + 1));
        } else {
            assert((a as int) < b);
            assert(target@ =~= req@.subrange(a as int + 1, b));
        }
        assert(opt_view(method) == m.method);
        assert(opt_view(protocol) == m.protocol);
        assert(target@ == m.target->0);
    }
    // path and query from the target
    let tn = target.as_str().unicode_len();
    let is_star = tn == 1 && target.as_str().get_char(0) == '*';
    proof {
        if is_star {
            assert(target@ =~= "*"@);
        } else {
            assert(target@ != "*"@);
        }
    }
    let mut q: usize = 0;
    while q < tn && target.as_str().get_char(q) != '?'
        invariant
            0 <= q <= tn == target@.len(),
            forall|j: int| 0 <= j < q ==> target@[j] != '?',
        decreases tn - q,
    {
        q += 1;
    }
    proof {
        crate::textnum::lemma_first_sep_at_pub(target@, '?', q as int);
    }
    let path: Option<String> = if is_star || q == tn {
        Option::Some(target.clone())
    } else {
        Option::Some(String::from_str(target.as_str().substring_char(0, q)))
    };
    let query: Option<String> = if is_star || q == tn || q + 1 >= tn {
        Option::None
    } else {
        Option::Some(String::from_str(target.as_str().substring_char(q + 1, tn)))
    };
    proof {
        assert(opt_view(path) == m.path);
        assert(opt_view(query) == m.query);
    }
    (method, Option::Some(target), path, query, protocol)
}

/// One parsed access-log line, every column as a plain value.
pub struct Record {
    pub ip: Option<String>,
    pub ident: Option<String>,
    pub user: Option<String>,
    pub ts: Option<String>,
    pub ts_raw: Option<String>,
    pub method: Option<String>,
    pub target: Option<String>,
    pub path: Option<String>,
    pub query: Option<String>,
    pub protocol: Option<String>,
    pub status: Option<i64>,
    pub bytes: Option<i64>,
    pub referer: Option<String>,
    pub user_agent: Option<String>,
    pub raw: String,
}

/// The spec-level shape of a parsed line.
pub struct RecordModel {
    pub ip: Option<Seq<char>>,
    pub ident: Option<Seq<char>>,
    pub user: Option<Seq<char>>,
    pub ts: Option<Seq<char>>,
    pub ts_raw: Option<Seq<char>>,
    pub method: Option<Seq<char>>,
    pub target: Option<Seq<char>>,
    pub path: Option<Seq<char>>,
    pub query: Option<Seq<char>>,
    pub protocol: Option<Seq<char>>,
    pub status: Option<i64>,
    pub bytes: Option<i64>,
    pub referer: Option<Seq<char>>,
    pub user_agent: Option<Seq<char>>,
    pub raw: Seq<char>,
}

impl Record {
    pub open spec fn model(&self) -> RecordModel {
        RecordModel {
            ip: opt_view(self.ip),
            ident: opt_view(self.ident),
            user: opt_view(self.user),
            ts: opt_view(self.ts),
            ts_raw: opt_view(self.ts_raw),
            method: opt_view(self.method),
            target: opt_view(self.target),
            path: opt_view(self.path),
            query: opt_view(self.query),
            protocol: opt_view(self.protocol),
            status: self.status,
            bytes: self.bytes,
            referer: opt_view(self.referer),
            user_agent: opt_view(self.user_agent),
            raw: self.raw@,
        }
    }
}

/// What one line parses to: the trimmed line matched against the combined
/// pattern, then the common one; the columns drawn from the capture groups.
pub open spec fn spec_parse_line(fast_time: bool, line: Seq<char>) -> Option<RecordModel> {
    let t = spec_trim(line);
    if t.len() == 0 {
        Option::None
    } else {
        let caps_opt = if regex_captures_of(combined_pattern(), t) is Some {
            regex_captures_of(combined_pattern(), t)
        } else {
            regex_captures_of(common_pattern(), t)
        };
        match caps_opt {
            Option::None => Option::None,
            Option::Some(c) => {
                let req = match group(c, 5) {
                    Option::Some(r) => r,
                    Option::None => Seq::empty(),
                };
                let rp = spec_parse_request(req);
                Option::Some(
                    RecordModel {
                        ip: group(c, 1),
                        ident: nondash(group(c, 2)),
                        user: nondash(group(c, 3)),
                        ts: match group(c, 4) {
                            Option::Some(tr) => if fast_time {
                                Option::None
                            } else {
                                utc_rfc3339_of(time_format(), tr)
                            },
                            Option::None => Option::None,
                        },
                        ts_raw: group(c, 4),
                        method: rp.method,
                        target: rp.target,
                        path: rp.path,
                        query: rp.query,
                        protocol: rp.protocol,
                        status: spec_to_int(group(c, 6)),
                        bytes: spec_to_int(group(c, 7)),
                        referer: nondash(group(c, 8)),
                        user_agent: nondash(group(c, 9)),
                        raw: t,
                    },
                )
            },
        }
    }
}

/// The access-log parsing context: the two patterns, the timestamp layout,
/// and whether timestamp conversion is skipped for speed.
pub struct ParserCtx {
    pub re_combined: String,
    pub re_common: String,
    pub fmt: String,
    pub fast_time: bool,
}

impl ParserCtx {
    pub open spec fn wf(&self) -> bool {
        self.re_combined@ == combined_pattern() && self.re_common@ == common_pattern()
            && self.fmt@ == time_format()
    }

    pub fn new(fast_time: bool) -> (ctx: ParserCtx)
        ensures
            ctx.wf(),
            ctx.fast_time == fast_time,
    {
        ParserCtx {
            re_combined: String::from_str(
                "^(?P<ip>\\S+) (?P<ident>\\S+) (?P<user>\\S+) \\[(?P<time>[^\\]]+)\\] \"(?P<request>[^\"]*)\" (?P<status>\\d{3}|-) (?P<size>\\S+) \"(?P<referer>[^\"]*)\" \"(?P<agent>[^\"]*)\"$",
            ),
            re_common: String::from_str(
                "^(?P<ip>\\S+) (?P<ident>\\S+) (?P<user>\\S+) \\[(?P<time>[^\\]]+)\\] \"(?P<request>[^\"]*)\" (?P<status>\\d{3}|-) (?P<size>\\S+)$",
            ),
            fmt: String::from_str(
                "[day]/[month repr:short]/[year]:[hour]:[minute]:[second] [offset_hour sign:mandatory][offset_minute]",
            ),
            fast_time,
        }
    }

    /// The timestamp as RFC 3339 UTC, skipped in fast-time mode.
    pub fn parse_time_iso8601_utc(&self, s: &str) -> (r: Option<String>)
        requires
            self.wf(),
        ensures
            opt_view(r) == (if self.fast_time {
                Option::<Seq<char>>::None
            } else {
                utc_rfc3339_of(time_format(), s@)
            }),
    {
        if self.fast_time {
            return Option::None;
        }
        format_log_time(self.fmt.as_str(), s)
    }

    /// Dash-filtered capture group as an owned value.
    fn group_nondash(caps: &Vec<Option<String>>, i: usize) -> (r: Option<String>)
        ensures
            opt_view(r) == nondash(group(caps.deep_view(), i as int)),
    {
        proof {
            reveal_strlit("-");
        }
        if i < caps.len() {
            match &caps[i] {
                Option::Some(s) => {
                    proof {
                        assert(caps.deep_view()[i as int] =~= Option::Some(s@));
                    }
                    if s.as_str().unicode_len() == 1 && s.as_str().get_char(0) == '-' {
                        proof {
                            assert(s@ =~= "-"@);
                        }
                        Option::None
                    } else {
                        proof {
                            assert(s@ != "-"@);
                        }
                        Option::Some(s.clone())
                    }
                },
                Option::None => {
                    proof {
                        assert(caps.deep_view()[i as int] is None);
                    }
                    Option::None
                },
            }
        } else {
            Option::None
        }
    }

    /// Plain capture group as an owned value.
    fn group_plain(caps: &Vec<Option<String>>, i: usize) -> (r: Option<String>)
        ensures
            opt_view(r) == group(caps.deep_view(), i as int),
    {
        if i < caps.len() {
            match &caps[i] {
                Option::Some(s) => {
                    proof {
                        assert(caps.deep_view()[i as int] =~= Option::Some(s@));
                    }
                    Option::Some(s.clone())
                },
                Option::None => {
                    proof {
                        assert(caps.deep_view()[i as int] is None);
                    }
                    Option::None
                },
            }
        } else {
            Option::None
        }
    }

    /// Parse one line into a record, or nothing when neither pattern
    /// matches the trimmed line.
    pub fn parse_line(&self, line: &str) -> (r: Option<Record>)
        requires
            self.wf(),
        ensures
            r is Some <==> spec_parse_line(self.fast_time, line@) is Some,
            r matches Some(rec) ==> Some(rec.model()) == spec_parse_line(self.fast_time, line@),
    {
        let t = trim(line);
        if t.unicode_len() == 0 {
            return Option::None;
        }
        let caps: Vec<Option<String>> = match regex_captures(self.re_combined.as_str(), t) {
            Option::Some(c) => c,
            Option::None => {
                match regex_captures(self.re_common.as_str(), t) {
                    Option::Some(c) => c,
                    Option::None => {
                        return Option::None;
                    },
                }
            },
        };
        let ghost cv = caps.deep_view();
        let ip = Self::group_plain(&caps, 1);
        let ident = Self::group_nondash(&caps, 2);
        let user = Self::group_nondash(&caps, 3);
        let ts_raw = Self::group_plain(&caps, 4);
        let ts: Option<String> = match &ts_raw {
            Option::Some(tr) => self.parse_time_iso8601_utc(tr.as_str()),
            Option::None => Option::None,
        };
        let request: Option<String> = Self::group_plain(&caps, 5);
        let (method, target, path, query, protocol) = match &request {
            Option::Some(rq) => parse_request(rq.as_str()),
            Option::None => {
                let e = String::new();
                proof {
                    assert(e@ =~= Seq::<char>::empty());
                }
                parse_request(e.as_str())
            },
        };
        let status_s = Self::group_plain(&caps, 6);
        let status = to_int(
            match &status_s {
                Option::Some(s) => Option::Some(s.as_str()),
                Option::None => Option::None,
            },
        );
        let bytes_s = Self::group_plain(&caps, 7);
        let bytes = to_int(
            match &bytes_s {
                Option::Some(s) => Option::Some(s.as_str()),
                Option::None => Option::None,
            },
        );
        let referer = Self::group_nondash(&caps, 8);
        let user_agent = Self::group_nondash(&caps, 9);
        let rec = Record {
            ip,
            ident,
            user,
            ts,
            ts_raw,
            method,
            target,
            path,
            query,
            protocol,
            status,
            bytes,
            referer,
            user_agent,
            raw: String::from_str(t),
        };
        proof {
            let m = spec_parse_line(self.fast_time, line@)->0;
            let req = match group(cv, 5) {
                Option::Some(r) => r,
                Option::None => Seq::<char>::empty(),
            };
            assert(rec.model().ts == m.ts);
            assert(rec.model() == m);
        }
        Option::Some(rec)
    }
}

/// Whether an optional field can be rendered into JSON.
pub open spec fn opt_quotable(v: Option<Seq<char>>) -> bool {
    match v {
        Option::Some(s) => json_quoted_of(s) is Some,
        Option::None => true,
    }
}

/// An optional text as a JSON value: `null` or the quoted string.
pub open spec fn spec_json_opt_str(v: Option<Seq<char>>) -> Seq<char> {
    match v {
        Option::None => "null"@,
        Option::Some(s) => json_quoted_of(s)->0,
    }
}

/// An optional integer as a JSON value: `null` or its decimal digits.
pub open spec fn spec_json_opt_int(v: Option<i64>) -> Seq<char> {
    match v {
        Option::None => "null"@,
        Option::Some(n) => spec_i64_chars(n as int),
    }
}

/// The JSON rendering of a record: one object with every column, absent
/// columns as `null`, in declaration order.
pub open spec fn spec_encode_record(m: RecordModel) -> Option<Seq<char>> {
    if opt_quotable(m.ip) && opt_quotable(m.ident) && opt_quotable(m.user) && opt_quotable(m.ts)
        && opt_quotable(m.ts_raw) && opt_quotable(m.method) && opt_quotable(m.target)
        && opt_quotable(m.path) && opt_quotable(m.query) && opt_quotable(m.protocol)
        && opt_quotable(m.referer) && opt_quotable(m.user_agent) && json_quoted_of(m.raw) is Some {
        Option::Some(
            "{\"ip\":"@ + spec_json_opt_str(m.ip) + ",\"ident\":"@ + spec_json_opt_str(m.ident)
                + ",\"user\":"@ + spec_json_opt_str(m.user) + ",\"ts\":"@ + spec_json_opt_str(m.ts)
                + ",\"ts_raw\":"@ + spec_json_opt_str(m.ts_raw) + ",\"method\":"@
                + spec_json_opt_str(m.method) + ",\"target\":"@ + spec_json_opt_str(m.target)
                + ",\"path\":"@ + spec_json_opt_str(m.path) + ",\"query\":"@ + spec_json_opt_str(
                m.query,
            ) + ",\"protocol\":"@ + spec_json_opt_str(m.protocol) + ",\"status\":"@
                + spec_json_opt_int(m.status) + ",\"bytes\":"@ + spec_json_opt_int(m.bytes)
                + ",\"referer\":"@ + spec_json_opt_str(m.referer) + ",\"user_agent\":"@
                + spec_json_opt_str(m.user_agent) + ",\"raw\":"@ + json_quoted_of(m.raw)->0 + "}"@,
        )
    } else {
        Option::None
    }
}

/// Append `null` or the quoted text.
fn append_opt_str(out: &mut String, v: &Option<String>) -> (ok: bool)
    ensures
        ok == opt_quotable(opt_view(*v)),
        ok ==> final(out)@ == old(out)@ + spec_json_opt_str(opt_view(*v)),
        !ok ==> final(out)@ == old(out)@,
{
    match v {
        Option::None => {
            out.append("null");
            true
        },
        Option::Some(s) => {
            match json_quote(s.as_str()) {
                Option::Some(q) => {
                    out.append(q.as_str());
                    true
                },
                Option::None => false,
            }
        },
    }
}

/// Append `null` or the decimal digits.
fn append_opt_int(out: &mut String, v: &Option<i64>)
    ensures
        final(out)@ == old(out)@ + spec_json_opt_int(*v),
{
    match v {
        Option::None => {
            out.append("null");
        },
        Option::Some(n) => {
            let s = i64_to_string(*n);
            out.append(s.as_str());
        },
    }
}

/// Render one record as its JSON object.
pub fn encode_record(rec: &Record) -> (r: Option<String>)
    ensures
        r is Some <==> spec_encode_record(rec.model()) is Some,
        r matches Some(q) ==> Some(q@) == spec_encode_record(rec.model()),
{
    let mut out = String::from_str("{\"ip\":");
    if !append_opt_str(&mut out, &rec.ip) {
        return Option::None;
    }
    out.append(",\"ident\":");
    if !append_opt_str(&mut out, &rec.ident) {
        return Option::None;
    }
    out.append(",\"user\":");
    if !append_opt_str(&mut out, &rec.user) {
        return Option::None;
    }
    out.append(",\"ts\":");
    if !append_opt_str(&mut out, &rec.ts) {
        return Option::None;
    }
    out.append(",\"ts_raw\":");
    if !append_opt_str(&mut out, &rec.ts_raw) {
        return Option::None;
    }
    out.append(",\"method\":");
    if !append_opt_str(&mut out, &rec.method) {
        return Option::None;
    }
    out.append(",\"target\":");
    if !append_opt_str(&mut out, &rec.target) {
        return Option::None;
    }
    out.append(",\"path\":");
    if !append_opt_str(&mut out, &rec.path) {
        return Option::None;
    }
    out.append(",\"query\":");
    if !append_opt_str(&mut out, &rec.query) {
        return Option::None;
    }
    out.append(",\"protocol\":");
    if !append_opt_str(&mut out, &rec.protocol) {
        return Option::None;
    }
    out.append(",\"status\":");
    append_opt_int(&mut out, &rec.status);
    out.append(",\"bytes\":");
    append_opt_int(&mut out, &rec.bytes);
    out.append(",\"referer\":");
    if !append_opt_str(&mut out, &rec.referer) {
        return Option::None;
    }
    out.append(",\"user_agent\":");
    if !append_opt_str(&mut out, &rec.user_agent) {
        return Option::None;
    }
    out.append(",\"raw\":");
    match json_quote(rec.raw.as_str()) {
        Option::None => Option::None,
        Option::Some(q) => {
            out.append(q.as_str());
            out.append("}");
            proof {
                assert(out@ =~= spec_encode_record(rec.model())->0);
            }
            Option::Some(out)
        },
    }
}

/// Access-log transformation: Apache/Nginx common or combined log lines
/// become JSON records.
pub struct WebAccess {
    pub ctx: ParserCtx,
}

/// Build the transformation; `fast_time` skips timestamp conversion.
pub fn new(fast_time: bool) -> (p: WebAccess)
    ensures
        p.wf(),
        p.ctx.fast_time == fast_time,
{
    WebAccess { ctx: ParserCtx::new(fast_time) }
}

impl Parser for WebAccess {
    open spec fn wf(&self) -> bool {
        self.ctx.wf()
    }

    open spec fn spec_emits(&self, line: Seq<char>) -> bool {
        &&& spec_parse_line(self.ctx.fast_time, spec_trim_cr(line)) is Some
        &&& spec_encode_record(spec_parse_line(self.ctx.fast_time, spec_trim_cr(line))->0) is Some
    }

    open spec fn spec_record(&self, line: Seq<char>) -> Seq<u8> {
        encode_utf8(
            spec_encode_record(spec_parse_line(self.ctx.fast_time, spec_trim_cr(line))->0)->0,
        )
    }

    open spec fn spec_name(&self) -> Seq<char> {
        "web-access"@
    }

    open spec fn spec_description(&self) -> Seq<char> {
        "Parses Apache/Nginx access logs (common/combined) -> JSONL"@
    }

    fn name(&self) -> (r: String) {
        String::from_str("web-access")
    }

    fn description(&self) -> (r: String) {
        String::from_str("Parses Apache/Nginx access logs (common/combined) -> JSONL")
    }

    fn process_line_to_buf(&self, line: &str, out: &mut Vec<u8>) -> (r: bool) {
        let s = trim_cr(line);
        match self.ctx.parse_line(s) {
            Option::None => false,
            Option::Some(rec) => {
                match encode_record(&rec) {
                    Option::None => false,
                    Option::Some(js) => {
                        let bytes = js.as_str().as_bytes_vec();
                        out.extend_from_slice(bytes.as_slice());
                        true
                    },
                }
            },
        }
    }
}

} // verus!
