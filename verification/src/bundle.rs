//! Nested bundles: tar streams compressed with xz. Decompression is done by
//! the `lzma_rs` crate and the tar stream is read by the `tar` crate.
//!
//! The decoder is handed no data that holds four bytes `0xFF` in a row: it
//! reads the size field of the stream footer as such four bytes without a
//! check and then adds to it, and only the decoder knows where in the data it
//! will look for the footer. A bundle with such bytes is refused.

use crate::text::views;
use vstd::prelude::*;

verus! {

/// Why a bundle could not be read.
#[derive(Debug, Clone, Copy, PartialEq, Eq, Structural)]
pub enum BundleError {
    /// The bundle holds four bytes `0xFF` in a row and is not handed to the
    /// decoder.
    Unsupported,
    /// The bundle is not a well-formed xz stream.
    Compression,
    /// The decompressed bundle is not a well-formed tar stream.
    Tar,
}

/// What `lzma_rs::xz_decompress` makes of `data`: the decompressed bytes, or
/// `None` where it reports an error.
pub uninterp spec fn xz_decoded(data: Seq<u8>) -> Option<Seq<u8>>;

/// What the `tar` crate lists for the tar stream `data`: the path of each
/// entry, directories included, in stream order; or `None` where it reports an
/// error for the stream, for an entry or for a path.
pub uninterp spec fn tar_paths(data: Seq<u8>) -> Option<Seq<Seq<char>>>;

/// Four bytes `0xFF` stand in a row in `data`, the first of them at `at`.
pub open spec fn ff_run_at(data: Seq<u8>, at: int) -> bool {
    &&& 0 <= at
    &&& at + 4 <= data.len()
    &&& data[at] == 255
    &&& data[at + 1] == 255
    &&& data[at + 2] == 255
    &&& data[at + 3] == 255
}

/// Four bytes `0xFF` stand in a row somewhere in `data`.
pub open spec fn holds_ff_run(data: Seq<u8>) -> bool {
    exists|at: int| ff_run_at(data, at)
}

/// Decides whether four bytes `0xFF` stand in a row somewhere in `data`.
pub fn has_ff_run(data: &[u8]) -> (r: bool)
    ensures
        r == holds_ff_run(data@),
{
    let len: usize = data.len();
    let mut at: usize = 0;
    while len >= 4 && at <= len - 4
        invariant
            len == data@.len(),
            forall|k: int| 0 <= k < at ==> !ff_run_at(data@, k),
        decreases len - at,
    {
        if data[at] == 255 && data[at + 1] == 255 && data[at + 2] == 255 && data[at + 3] == 255 {
            assert(ff_run_at(data@, at as int));
            return true;
        }
        at += 1;
    }
    false
}

/// Runs `lzma_rs::xz_decompress` on `data` with an empty buffer for the
/// output. The contract names the outcome `xz_decoded`. The data must not
/// hold four bytes `0xFF` in a row: the crate reads the backward size of the
/// stream footer as a 32-bit number and adds one to it before any check, which
/// overflows for that value, and where the footer is looked for depends on
/// the decoding of all that stands before it.
#[verifier::external_body]
fn xz_decompress(data: &[u8]) -> (r: Option<Vec<u8>>)
    requires
        !holds_ff_run(data@),
    ensures
        match r {
            Some(bytes) => xz_decoded(data@) == Some(bytes@),
            None => xz_decoded(data@) is None,
        },
{
    let mut input = data;
    let mut output = Vec::new();
    match lzma_rs::xz_decompress(&mut input, &mut output) {
        Ok(()) => Some(output),
        Err(_) => None,
    }
}

/// Walks `tar::Archive::entries` over `data` and takes `Entry::path` of each
/// entry, as text. The contract names the outcome `tar_paths`.
#[verifier::external_body]
fn tar_entry_paths(data: &[u8]) -> (r: Option<Vec<String>>)
    ensures
        match r {
            Some(paths) => tar_paths(data@) == Some(views(paths@)),
            None => tar_paths(data@) is None,
        },
{
    let mut archive = tar::Archive::new(data);
    let mut paths = Vec::new();
    for entry in archive.entries().ok()? {
        paths.push(entry.ok()?.path().ok()?.to_string_lossy().into_owned());
    }
    Some(paths)
}

/// The tar stream inside the bundle `data`; a bundle with four bytes `0xFF`
/// in a row is refused unread.
pub open spec fn spec_decompress(data: Seq<u8>) -> Result<Seq<u8>, BundleError> {
    if holds_ff_run(data) {
        Err(BundleError::Unsupported)
    } else {
        match xz_decoded(data) {
            Some(bytes) => Ok(bytes),
            None => Err(BundleError::Compression),
        }
    }
}

/// The paths of the entries of the tar stream `tar`.
pub open spec fn spec_list(tar: Seq<u8>) -> Result<Seq<Seq<char>>, BundleError> {
    match tar_paths(tar) {
        Some(paths) => Ok(paths),
        None => Err(BundleError::Tar),
    }
}

/// The paths of the files in the bundle `data`, relative to where the bundle
/// is unpacked.
pub open spec fn spec_relative_files(data: Seq<u8>) -> Result<Seq<Seq<char>>, BundleError> {
    match spec_decompress(data) {
        Ok(tar) => spec_list(tar),
        Err(e) => Err(e),
    }
}

/// `out` is the list of paths `expected`, or the same error.
pub open spec fn lists(
    out: Result<Vec<String>, BundleError>,
    expected: Result<Seq<Seq<char>>, BundleError>,
) -> bool {
    match out {
        Ok(paths) => expected == Ok::<Seq<Seq<char>>, BundleError>(views(paths@)),
        Err(e) => expected == Err::<Seq<Seq<char>>, BundleError>(e),
    }
}

/// Decompresses a bundle into its tar stream.
pub fn decompress(data: &[u8]) -> (r: Result<Vec<u8>, BundleError>)
    ensures
        match r {
            Ok(tar) => spec_decompress(data@) == Ok::<Seq<u8>, BundleError>(tar@),
            Err(e) => spec_decompress(data@) == Err::<Seq<u8>, BundleError>(e),
        },
{
    if has_ff_run(data) {
        return Err(BundleError::Unsupported);
    }
    match xz_decompress(data) {
        Some(bytes) => Ok(bytes),
        None => Err(BundleError::Compression),
    }
}

/// Lists the paths of the entries of a tar stream, in stream order.
pub fn list(tar: &[u8]) -> (r: Result<Vec<String>, BundleError>)
    ensures
        lists(r, spec_list(tar@)),
{
    match tar_entry_paths(tar) {
        Some(paths) => Ok(paths),
        None => Err(BundleError::Tar),
    }
}

/// Lists the paths of the files in a bundle, in stream order.
pub fn relative_files(data: &[u8]) -> (r: Result<Vec<String>, BundleError>)
    ensures
        lists(r, spec_relative_files(data@)),
{
    match decompress(data) {
        Ok(tar) => list(tar.as_slice()),
        Err(e) => Err(e),
    }
}

} // verus!
