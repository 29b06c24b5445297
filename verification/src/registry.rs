use vstd::prelude::*;

verus! {

use crate::modules::csv_dummy::CsvDummy;
use crate::modules::web_access::WebAccess;
use crate::modules::web_access;
use crate::parser::Parser;

/// Any of the transformations this build offers, dispatched by value
/// instead of through a trait object.
pub enum AnyParser {
    Web(WebAccess),
    Csv(CsvDummy),
}

impl Parser for AnyParser {
    open spec fn wf(&self) -> bool {
        match self {
            AnyParser::Web(w) => w.wf(),
            AnyParser::Csv(c) => c.wf(),
        }
    }

    open spec fn spec_emits(&self, line: Seq<char>) -> bool {
        match self {
            AnyParser::Web(w) => w.spec_emits(line),
            AnyParser::Csv(c) => c.spec_emits(line),
        }
    }

    open spec fn spec_record(&self, line: Seq<char>) -> Seq<u8> {
        match self {
            AnyParser::Web(w) => w.spec_record(line),
            AnyParser::Csv(c) => c.spec_record(line),
        }
    }

    open spec fn spec_name(&self) -> Seq<char> {
        match self {
            AnyParser::Web(w) => w.spec_name(),
            AnyParser::Csv(c) => c.spec_name(),
        }
    }

    open spec fn spec_description(&self) -> Seq<char> {
        match self {
            AnyParser::Web(w) => w.spec_description(),
            AnyParser::Csv(c) => c.spec_description(),
        }
    }

    fn name(&self) -> (r: String) {
        match self {
            AnyParser::Web(w) => w.name(),
            AnyParser::Csv(c) => c.name(),
        }
    }

    fn description(&self) -> (r: String) {
        match self {
            AnyParser::Web(w) => w.description(),
            AnyParser::Csv(c) => c.description(),
        }
    }

    fn process_line_to_buf(&self, line: &str, out: &mut Vec<u8>) -> (r: bool) {
        match self {
            AnyParser::Web(w) => w.process_line_to_buf(line, out),
            AnyParser::Csv(c) => c.process_line_to_buf(line, out),
        }
    }
}

/// The transformations available to a run, in listing order, in their
/// default configuration: the explicit registry value handed to whoever
/// needs lookup. The two names are fixed, and distinct, so run-by-name
/// lookup is unambiguous.
pub fn registry() -> (r: Vec<AnyParser>)
    ensures
        r@.len() == 2,
        r@[0] matches AnyParser::Web(w) && w.wf() && !w.ctx.fast_time,
        r@[1] matches AnyParser::Csv(c) && c.spec_headers() is None && c.spec_delim() == 44u8,
        r@[0].spec_name() == "web-access"@,
        r@[1].spec_name() == "csv-dummy"@,
        r@[0].spec_name() != r@[1].spec_name(),
{
    let mut v: Vec<AnyParser> = Vec::new();
    v.push(AnyParser::Web(web_access::new(false)));
    v.push(AnyParser::Csv(CsvDummy::new(None, None)));
    proof {
        reveal_strlit("web-access");
        reveal_strlit("csv-dummy");
        assert(("web-access"@).len() == 10);
        assert(("csv-dummy"@).len() == 9);
        assert(v@[0].spec_name() != v@[1].spec_name());
    }
    v
}

} // verus!
