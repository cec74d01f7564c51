//! Binary PLY mesh loading: from the bytes of a `.ply` file (gzip-compressed
//! or not) to its vertices, normals, texture coordinates and triangles.

use std::io::Read;
use vstd::prelude::*;
use vstd::utf8::decode_utf8;
use crate::ply_header::{
    HeaderEnd, HeaderResult, HeaderState, LineStep, ElementSpec, ElementDef, header_of, header_from,
    header_step, initial_header, read_header, elements_view, header_warnings, word_opt,
};
use crate::text::words_view;
use crate::ply_body::{MeshSpec, PlyMesh, body_of, read_body, first_named, find_element};
use crate::text::{lemma_line_end, line_end};

verus! {

/// Why no mesh comes out of a PLY file.
#[derive(Debug, PartialEq, Eq)]
pub enum PlyError {
    /// The data ends before `end_header`.
    UnexpectedEof,
    /// `end_header` comes and no `format` line came before it.
    MissingFormat,
    /// A `format` line declares a format other than
    /// `binary_little_endian`; the word after `format`, if any.
    NotBinaryLittleEndian(Option<Vec<char>>),
    /// A header line is not valid UTF-8.
    InvalidHeaderText,
    /// Reading or decompressing the file failed while the header was read.
    HeaderReadFailed,
    /// The body ends before every declared record has been read.
    Truncated,
    /// The first `vertex` or `face` element declares more records than the
    /// mesh vectors can be sized for (three 4-byte values per record).
    TooLarge,
}

/// The mathematical value of a `PlyError`.
pub enum PlyFailure {
    UnexpectedEof,
    MissingFormat,
    NotBinaryLittleEndian(Option<Seq<char>>),
    InvalidHeaderText,
    HeaderReadFailed,
    Truncated,
    TooLarge,
}

impl View for PlyError {
    type V = PlyFailure;

    open spec fn view(&self) -> PlyFailure {
        match self {
            PlyError::UnexpectedEof => PlyFailure::UnexpectedEof,
            PlyError::MissingFormat => PlyFailure::MissingFormat,
            PlyError::NotBinaryLittleEndian(w) => PlyFailure::NotBinaryLittleEndian(word_opt(*w)),
            PlyError::InvalidHeaderText => PlyFailure::InvalidHeaderText,
            PlyError::HeaderReadFailed => PlyFailure::HeaderReadFailed,
            PlyError::Truncated => PlyFailure::Truncated,
            PlyError::TooLarge => PlyFailure::TooLarge,
        }
    }
}

/// The first `vertex` and `face` elements declare few enough records that
/// three 4-byte values per record fit in a vector.
pub open spec fn capacity_ok(els: Seq<ElementSpec>) -> bool {
    &&& (first_named(els, "vertex"@) matches Some(e) ==> e.count * 12 <= isize::MAX)
    &&& (first_named(els, "face"@) matches Some(e) ==> e.count * 12 <= isize::MAX)
}

/// The mesh that the bytes of an uncompressed PLY file describe, or why
/// there is none. `b` holds the bytes that could be read, and `failed`
/// tells whether reading them stopped on an error.
pub open spec fn ply_of(b: Seq<u8>, failed: bool) -> Result<MeshSpec, PlyFailure> {
    match header_of(b, failed) {
        HeaderEnd::Eof => Err(PlyFailure::UnexpectedEof),
        HeaderEnd::NoFormat => Err(PlyFailure::MissingFormat),
        HeaderEnd::WrongFormat(w) => Err(PlyFailure::NotBinaryLittleEndian(w)),
        HeaderEnd::BadText => Err(PlyFailure::InvalidHeaderText),
        HeaderEnd::ReadFailed => Err(PlyFailure::HeaderReadFailed),
        HeaderEnd::Body(st, start) => if !capacity_ok(st.elements) {
            Err(PlyFailure::TooLarge)
        } else {
            match body_of(b, start, st.elements) {
                Some(m) => Ok(m),
                None => Err(PlyFailure::Truncated),
            }
        },
    }
}

/// `r` is the exec form of the outcome `o`.
pub open spec fn outcome_matches(r: Result<PlyMesh, PlyError>, o: Result<MeshSpec, PlyFailure>) -> bool {
    match r {
        Ok(m) => o == Ok::<MeshSpec, PlyFailure>(m@),
        Err(e) => o == Err::<MeshSpec, PlyFailure>(e@),
    }
}

/// Reads a mesh from the bytes of an uncompressed binary little-endian PLY
/// file.
pub fn parse_ply(b: &[u8]) -> (r: Result<PlyMesh, PlyError>)
    ensures
        outcome_matches(r, ply_of(b@, false)),
{
    let mut warnings: Vec<Vec<char>> = Vec::new();
    read_ply(b, false, &mut warnings)
}

/// Reads a mesh from the bytes that could be read of an uncompressed PLY
/// file; `read_failed` tells whether reading them stopped on an error. The
/// unknown property type names of the header, each read as `float`, are
/// appended to `warnings` in the order they are declared.
pub fn read_ply(b: &[u8], read_failed: bool, warnings: &mut Vec<Vec<char>>) -> (r: Result<
    PlyMesh,
    PlyError,
>)
    ensures
        outcome_matches(r, ply_of(b@, read_failed)),
        words_view(final(warnings)@) == words_view(old(warnings)@) + header_warnings(
            b@,
            read_failed,
        ),
{
    match read_header(b, read_failed, warnings) {
        HeaderResult::Eof => Err(PlyError::UnexpectedEof),
        HeaderResult::NoFormat => Err(PlyError::MissingFormat),
        HeaderResult::WrongFormat(w) => Err(PlyError::NotBinaryLittleEndian(w)),
        HeaderResult::BadText => Err(PlyError::InvalidHeaderText),
        HeaderResult::ReadFailed => Err(PlyError::HeaderReadFailed),
        HeaderResult::Body(els, start) => {
            proof {
                lemma_header_from_start(b@, 0, initial_header(), read_failed);
            }
            if !records_fit(&els) {
                return Err(PlyError::TooLarge);
            }
            match read_body(b, start, &els) {
                Some(m) => Ok(m),
                None => Err(PlyError::Truncated),
            }
        },
    }
}

/// Whether the first `vertex` and `face` elements pass `capacity_ok`.
fn records_fit(els: &Vec<ElementDef>) -> (r: bool)
    ensures
        r == capacity_ok(elements_view(els@)),
{
    let limit = (isize::MAX as usize) / 12;
    let v_ok = match find_element(els, "vertex") {
        Some(i) => els[i].count <= limit,
        None => true,
    };
    let f_ok = match find_element(els, "face") {
        Some(i) => els[i].count <= limit,
        None => true,
    };
    v_ok && f_ok
}

/// The body of a header that was read starts within the bytes.
pub proof fn lemma_body_within_bytes(b: Seq<u8>, failed: bool)
    ensures
        header_of(b, failed) matches HeaderEnd::Body(_, start) ==> 0 <= start <= b.len(),
{
    lemma_header_from_start(b, 0, initial_header(), failed);
}

/// The body starts within the bytes.
proof fn lemma_header_from_start(b: Seq<u8>, pos: int, st: HeaderState, failed: bool)
    ensures
        header_from(b, pos, st, failed) matches HeaderEnd::Body(_, start) ==> 0 <= start <= b.len(),
    decreases b.len() - pos,
{
    if 0 <= pos < b.len() {
        lemma_line_end(b, pos);
        let e = line_end(b, pos);
        match header_step(st, decode_utf8(b.subrange(pos, e))) {
            LineStep::Next(next) => {
                lemma_header_from_start(b, e, next, failed);
            },
            _ => {},
        }
    }
}

/// What gzip decompression (`flate2::read::GzDecoder`, read to the end)
/// makes of `data`: the bytes that it yields, and whether it finished
/// without an error.
pub uninterp spec fn gz_decoded(data: Seq<u8>) -> (Seq<u8>, bool);

/// Decompresses gzip data with `flate2::read::GzDecoder`, reading to the
/// end. The contract only names the result: which bytes come out is left to
/// flate2; it is a function of the input alone.
#[verifier::external_body]
fn gunzip(data: &[u8]) -> (r: (Vec<u8>, bool))
    ensures
        (r.0@, r.1) == gz_decoded(data@),
{
    let mut out = Vec::new();
    let ok = flate2::read::GzDecoder::new(data).read_to_end(&mut out).is_ok();
    (out, ok)
}

/// Reads a mesh from the bytes that could be read of a PLY file, gunzipping
/// them first when `gzipped`; `read_failed` tells whether reading the file
/// stopped on an error. The unknown property type names of the header are
/// appended to `warnings`.
pub fn load_from_bytes(
    data: &[u8],
    gzipped: bool,
    read_failed: bool,
    warnings: &mut Vec<Vec<char>>,
) -> (r: Result<PlyMesh, PlyError>)
    ensures
        gzipped ==> outcome_matches(
            r,
            ply_of(gz_decoded(data@).0, read_failed || !gz_decoded(data@).1),
        ),
        gzipped ==> words_view(final(warnings)@) == words_view(old(warnings)@) + header_warnings(
            gz_decoded(data@).0,
            read_failed || !gz_decoded(data@).1,
        ),
        !gzipped ==> outcome_matches(r, ply_of(data@, read_failed)),
        !gzipped ==> words_view(final(warnings)@) == words_view(old(warnings)@) + header_warnings(
            data@,
            read_failed,
        ),
{
    if gzipped {
        let (plain, ok) = gunzip(data);
        read_ply(plain.as_slice(), read_failed || !ok, warnings)
    } else {
        read_ply(data, read_failed, warnings)
    }
}

} // verus!
