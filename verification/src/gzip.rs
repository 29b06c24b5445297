use vstd::prelude::*;

verus! {

use crate::lines::spec_lines;
use crate::parser::Parser;
use crate::pipeline::RunResult;
use crate::pipeline::run_bytes;
use crate::pipeline::spec_emitted;
use crate::pipeline::spec_output;
use crate::pipeline::spec_concat;
use crate::pipeline::sim_output;

/// The decompressed content of a gzip stream, or nothing when the bytes do
/// not form one; a pure function of the bytes.
pub uninterp spec fn gunzip_of(data: Seq<u8>) -> Option<Seq<u8>>;

/// Relies on flate2's `GzDecoder` driven by `Read::read_to_end`:
/// decompression is a pure function of the compressed bytes.
#[verifier::external_body]
pub fn gunzip(data: &Vec<u8>) -> (r: Option<Vec<u8>>)
    ensures
        r matches Some(v) ==> gunzip_of(data@) == Some(v@),
        r is None ==> gunzip_of(data@) is None,
{
    let mut d = flate2::read::GzDecoder::new(&data[..]);
    let mut out: Vec<u8> = Vec::new();
    match std::io::Read::read_to_end(&mut d, &mut out) {
        Ok(_) => Some(out),
        Err(_) => None,
    }
}

/// Whether a byte stream begins with the gzip magic pair.
pub open spec fn is_gzip_magic(data: Seq<u8>) -> bool {
    data.len() >= 2 && data[0] == 0x1fu8 && data[1] == 0x8bu8
}

/// The magic test on a whole in-memory stream.
pub fn starts_with_gzip_magic(data: &Vec<u8>) -> (r: bool)
    ensures
        r == is_gzip_magic(data@),
{
    data.len() >= 2 && data[0] == 0x1f && data[1] == 0x8b
}

/// The magic test on the first bytes read from a file: `n` is how many of
/// the two bytes could be read.
pub fn is_gzip_magic_pair(n: usize, b0: u8, b1: u8) -> (r: bool)
    ensures
        r == (n >= 2 && b0 == 0x1f && b1 == 0x8b),
{
    n >= 2 && b0 == 0x1f && b1 == 0x8b
}

/// What a raw file denotes: its decompression when it begins with the gzip
/// magic, else the bytes themselves; nothing when a magic-led stream is
/// corrupt.
pub open spec fn logical_content(raw: Seq<u8>) -> Option<Seq<u8>> {
    if is_gzip_magic(raw) {
        gunzip_of(raw)
    } else {
        Option::Some(raw)
    }
}

/// A failure of the transparent source: a magic-led stream that does not
/// decompress. Fatal to the run.
#[derive(Debug, Clone, Copy, PartialEq, Eq, Structural)]
pub enum SourceError {
    Corrupt,
}

/// Run the pipeline against a raw file image, decompressing transparently:
/// the transparent source in front of the line reader.
pub fn run_source<P: Parser>(
    p: &P,
    raw: &Vec<u8>,
    workers: usize,
    schedule: &Vec<usize>,
) -> (r: Result<RunResult, SourceError>)
    requires
        p.wf(),
        workers >= 1,
    ensures
        r is Ok <==> logical_content(raw@) is Some,
        r matches Ok(rr) ==> {
            &&& rr.emitted == spec_emitted(*p, spec_lines(logical_content(raw@)->0))
            &&& spec_concat(rr.blobs.deep_view()) == sim_output(
                *p,
                spec_lines(logical_content(raw@)->0),
                schedule@,
                workers as int,
            )
            &&& workers == 1 ==> spec_concat(rr.blobs.deep_view()) == spec_output(
                *p,
                spec_lines(logical_content(raw@)->0),
            )
        },
{
    if starts_with_gzip_magic(raw) {
        match gunzip(raw) {
            Option::None => Result::Err(SourceError::Corrupt),
            Option::Some(content) => Result::Ok(run_bytes(p, &content, workers, schedule)),
        }
    } else {
        Result::Ok(run_bytes(p, raw, workers, schedule))
    }
}

/// Compression transparency: a gzip stream and the plain text it
/// decompresses to drive the pipeline identically, since they denote the
/// same logical content. Plain text that itself begins with the gzip magic
/// pair is excluded: it would be taken for a compressed stream.
pub proof fn lemma_compression_transparency(plain: Seq<u8>, gz: Seq<u8>)
    requires
        !is_gzip_magic(plain),
        is_gzip_magic(gz),
        gunzip_of(gz) == Some(plain),
    ensures
        logical_content(gz) == logical_content(plain),
        logical_content(plain) == Some(plain),
{
}

} // verus!
