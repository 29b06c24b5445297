use vstd::prelude::*;

verus! {

/// The transformation contract: pluggable per-line logic. Given one
/// normalized line of text, an implementation appends zero or one
/// serialized record (newline-free at the record level; the pipeline itself
/// appends the line terminator) to the output buffer and reports whether a
/// record was appended.
///
/// Implementations must behave as pure functions of the line text, captured
/// by the two spec functions below: `spec_emits` says on which lines a
/// record is produced, `spec_record` says which bytes it consists of.
pub trait Parser: Sized {
    /// Well-formedness of the parser configuration.
    spec fn wf(&self) -> bool;

    /// Whether this parser emits a record for the given normalized line.
    spec fn spec_emits(&self, line: Seq<char>) -> bool;

    /// The record bytes emitted for the given normalized line
    /// (meaningful only when `spec_emits` holds; excludes the terminator).
    spec fn spec_record(&self, line: Seq<char>) -> Seq<u8>;

    /// The identifier `name` returns: what run-by-name lookup goes by.
    spec fn spec_name(&self) -> Seq<char>;

    /// The text `description` returns.
    spec fn spec_description(&self) -> Seq<char>;

    /// Short identifier of the transformation.
    fn name(&self) -> (r: String)
        ensures
            r@ == self.spec_name(),
    ;

    /// Human-readable description of the transformation.
    fn description(&self) -> (r: String)
        ensures
            r@ == self.spec_description(),
    ;

    /// Apply the transformation to one normalized line, appending the
    /// serialized record to `out` on success.
    fn process_line_to_buf(&self, line: &str, out: &mut Vec<u8>) -> (r: bool)
        requires
            self.wf(),
        ensures
            r == self.spec_emits(line@),
            r ==> final(out)@ == old(out)@ + self.spec_record(line@),
            !r ==> final(out)@ == old(out)@,
    ;
}

} // verus!
