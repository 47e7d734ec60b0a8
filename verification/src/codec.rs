//! The codecs of the outside crates `zstd`, `flate2`, `xz2` and `bzip2`, on
//! byte buffers.
//!
//! What a codec produces takes the codec's own pages to state; each result has
//! a name here. The few facts that the library needs of them, and that the
//! formats and the crates' documentation give, stand in the wrappers' `ensures`:
//! a compressed stream starts with its format's magic bytes, and decompressing
//! it gives back the input.

use vstd::prelude::*;
use crate::format::{has_magic, Format};

verus! {

/// The zstd frame that `zstd::stream::encode_all` makes of `input` at `level`.
pub uninterp spec fn zstd_encoded(input: Seq<u8>, level: i32) -> Seq<u8>;

/// What reading a `zstd::stream::read::Decoder` over `input` to its end yields,
/// or `None` where that read fails.
pub uninterp spec fn zstd_decoded(input: Seq<u8>) -> Option<Seq<u8>>;

/// The gzip member that `flate2::write::GzEncoder` makes of `input` at `level`.
pub uninterp spec fn gzip_encoded(input: Seq<u8>, level: u32) -> Seq<u8>;

/// What reading a `flate2::read::GzDecoder` over `input` to its end yields, or
/// `None` where that read fails.
pub uninterp spec fn gzip_decoded(input: Seq<u8>) -> Option<Seq<u8>>;

/// The xz stream that `xz2::write::XzEncoder` makes of `input` at preset `level`.
pub uninterp spec fn xz_encoded(input: Seq<u8>, level: u32) -> Seq<u8>;

/// What reading an `xz2::read::XzDecoder` over `input` to its end yields, or
/// `None` where that read fails.
pub uninterp spec fn xz_decoded(input: Seq<u8>) -> Option<Seq<u8>>;

/// The bzip2 stream that `bzip2::write::BzEncoder` makes of `input` at `level`.
pub uninterp spec fn bzip2_encoded(input: Seq<u8>, level: u32) -> Seq<u8>;

/// What reading a `bzip2::read::BzDecoder` over `input` to its end yields, or
/// `None` where that read fails.
pub uninterp spec fn bzip2_decoded(input: Seq<u8>) -> Option<Seq<u8>>;

/// What reading at most `limit` bytes from a decoder yields, as the bytes read
/// and the error that stopped the read, if any, given what reading the decoder
/// to its end yields (`full`):
/// - never more than `limit` bytes (nor more than a `Vec` can hold);
/// - an error only before `limit` bytes were read;
/// - without an error, fewer than `limit` bytes only when the decoder reached
///   its end, so that the bytes read are its whole output;
/// - where the whole read succeeds, no error and the first `limit` bytes of its
///   output.
pub open spec fn bounded_read(full: Option<Seq<u8>>, limit: u64, r: (Vec<u8>, Option<String>)) -> bool {
    &&& r.0@.len() <= limit && r.0@.len() <= isize::MAX
    &&& r.1 is Some ==> r.0@.len() < limit
    &&& (r.1 is None && r.0@.len() < limit) ==> full == Some(r.0@)
    &&& full matches Some(out) ==> (r.1 is None && r.0@ == out.take(
        if out.len() < limit { out.len() as int } else { limit as int },
    ))
}

/// Compresses `input` with `zstd::stream::encode_all` at `level`.
///
/// Claims of it: it succeeds (it writes into a `Vec`, and libzstd clamps the
/// level into its range); its output is named by `zstd_encoded`; it starts with
/// the zstd magic number; the zstd decoder gives `input` back from it. Running
/// out of memory aborts instead of returning.
#[verifier::external_body]
pub(crate) fn zstd_encode(input: &[u8], level: i32) -> (r: Result<Vec<u8>, String>)
    ensures
        r is Ok,
        r matches Ok(v) ==> v@ == zstd_encoded(input@, level),
        r matches Ok(v) ==> has_magic(v@, Format::Zstd),
        r matches Ok(v) ==> zstd_decoded(v@) == Some(input@),
{
    match zstd::stream::encode_all(input, level) {
        Ok(v) => Ok(v),
        Err(e) => Err(e.to_string()),
    }
}

/// Reads at most `limit` bytes from a `zstd::stream::read::Decoder` over `input`
/// (through `std::io::Read::take` and `read_to_end`).
///
/// Claims of it: `bounded_read` over the name `zstd_decoded`; the bytes read
/// before an error are kept (`read_to_end` appends them). Not claimed: what its
/// error message says, nor what those bytes are, which depends on how the
/// decoder is read.
#[verifier::external_body]
pub(crate) fn zstd_decode(input: &[u8], limit: u64) -> (r: (Vec<u8>, Option<String>))
    requires
        limit > 0,
    ensures
        bounded_read(zstd_decoded(input@), limit, r),
{
    let mut out = Vec::new();
    match zstd::stream::read::Decoder::new(input) {
        Ok(d) => match std::io::Read::read_to_end(&mut std::io::Read::take(d, limit), &mut out) {
            Ok(_) => (out, None),
            Err(e) => (out, Some(e.to_string())),
        },
        Err(e) => (out, Some(e.to_string())),
    }
}

/// Compresses `input` with `flate2::write::GzEncoder` at
/// `flate2::Compression::new(level)`: `write_all`, then `finish`. The deflate
/// backend asserts (in debug builds) that the level is at most 10.
///
/// Claims of it: it succeeds (it writes into a `Vec`, which never fails); its
/// output is named by `gzip_encoded`; it starts with the gzip magic bytes; the
/// gzip decoder gives `input` back from it. Running out of memory aborts instead
/// of returning.
#[verifier::external_body]
pub(crate) fn gzip_encode(input: &[u8], level: u32) -> (r: Result<Vec<u8>, String>)
    requires
        level <= 10,
    ensures
        r is Ok,
        r matches Ok(v) ==> v@ == gzip_encoded(input@, level),
        r matches Ok(v) ==> has_magic(v@, Format::Gzip),
        r matches Ok(v) ==> gzip_decoded(v@) == Some(input@),
{
    let mut enc = flate2::write::GzEncoder::new(Vec::new(), flate2::Compression::new(level));
    match std::io::Write::write_all(&mut enc, input) {
        Ok(()) => {},
        Err(e) => return Err(e.to_string()),
    }
    match enc.finish() {
        Ok(v) => Ok(v),
        Err(e) => Err(e.to_string()),
    }
}

/// Reads at most `limit` bytes from a `flate2::read::GzDecoder` over `input`.
///
/// Claims of it: `bounded_read` over the name `gzip_decoded`; the bytes read
/// before an error are kept (`read_to_end` appends them). Not claimed: what its
/// error message says, nor what those bytes are, which depends on how the
/// decoder is read.
#[verifier::external_body]
pub(crate) fn gzip_decode(input: &[u8], limit: u64) -> (r: (Vec<u8>, Option<String>))
    requires
        limit > 0,
    ensures
        bounded_read(gzip_decoded(input@), limit, r),
{
    let mut out = Vec::new();
    let d = flate2::read::GzDecoder::new(input);
    match std::io::Read::read_to_end(&mut std::io::Read::take(d, limit), &mut out) {
        Ok(_) => (out, None),
        Err(e) => (out, Some(e.to_string())),
    }
}

/// Compresses `input` with `xz2::write::XzEncoder` at preset `level`:
/// `write_all`, then `finish`. `XzEncoder::new` panics on a preset that liblzma
/// refuses, so `level` is kept to the presets 0 to 9.
///
/// Claims of it: it succeeds (it writes into a `Vec`, and presets 0 to 9 are
/// valid); its output is named by `xz_encoded`; it starts with the xz magic
/// bytes; the xz decoder gives `input` back from it. Running out of memory
/// aborts instead of returning.
#[verifier::external_body]
pub(crate) fn xz_encode(input: &[u8], level: u32) -> (r: Result<Vec<u8>, String>)
    requires
        level <= 9,
    ensures
        r is Ok,
        r matches Ok(v) ==> v@ == xz_encoded(input@, level),
        r matches Ok(v) ==> has_magic(v@, Format::Xz),
        r matches Ok(v) ==> xz_decoded(v@) == Some(input@),
{
    let mut enc = xz2::write::XzEncoder::new(Vec::new(), level);
    match std::io::Write::write_all(&mut enc, input) {
        Ok(()) => {},
        Err(e) => return Err(e.to_string()),
    }
    match enc.finish() {
        Ok(v) => Ok(v),
        Err(e) => Err(e.to_string()),
    }
}

/// Reads at most `limit` bytes from an `xz2::read::XzDecoder` over `input`.
///
/// Claims of it: `bounded_read` over the name `xz_decoded`; the bytes read
/// before an error are kept (`read_to_end` appends them). Not claimed: what its
/// error message says, nor what those bytes are, which depends on how the
/// decoder is read.
#[verifier::external_body]
pub(crate) fn xz_decode(input: &[u8], limit: u64) -> (r: (Vec<u8>, Option<String>))
    requires
        limit > 0,
    ensures
        bounded_read(xz_decoded(input@), limit, r),
{
    let mut out = Vec::new();
    let d = xz2::read::XzDecoder::new(input);
    match std::io::Read::read_to_end(&mut std::io::Read::take(d, limit), &mut out) {
        Ok(_) => (out, None),
        Err(e) => (out, Some(e.to_string())),
    }
}

/// Compresses `input` with `bzip2::write::BzEncoder` at
/// `bzip2::Compression::new(level)`: `write_all`, then `finish`. The encoder
/// asserts that libbzip2 accepts the block size, so `level` is kept to 1 to 9.
///
/// Claims of it: it succeeds (it writes into a `Vec`, and levels 1 to 9 are
/// valid block sizes); its output is named by `bzip2_encoded`; it starts with
/// the bzip2 magic bytes; the bzip2 decoder gives `input` back from it. Running
/// out of memory aborts instead of returning.
#[verifier::external_body]
pub(crate) fn bzip2_encode(input: &[u8], level: u32) -> (r: Result<Vec<u8>, String>)
    requires
        1 <= level <= 9,
    ensures
        r is Ok,
        r matches Ok(v) ==> v@ == bzip2_encoded(input@, level),
        r matches Ok(v) ==> has_magic(v@, Format::Bzip2),
        r matches Ok(v) ==> bzip2_decoded(v@) == Some(input@),
{
    let mut enc = bzip2::write::BzEncoder::new(Vec::new(), bzip2::Compression::new(level));
    match std::io::Write::write_all(&mut enc, input) {
        Ok(()) => {},
        Err(e) => return Err(e.to_string()),
    }
    match enc.finish() {
        Ok(v) => Ok(v),
        Err(e) => Err(e.to_string()),
    }
}

/// Reads at most `limit` bytes from a `bzip2::read::BzDecoder` over `input`.
///
/// Claims of it: `bounded_read` over the name `bzip2_decoded`; the bytes read
/// before an error are kept (`read_to_end` appends them). Not claimed: what its
/// error message says, nor what those bytes are, which depends on how the
/// decoder is read.
#[verifier::external_body]
pub(crate) fn bzip2_decode(input: &[u8], limit: u64) -> (r: (Vec<u8>, Option<String>))
    requires
        limit > 0,
    ensures
        bounded_read(bzip2_decoded(input@), limit, r),
{
    let mut out = Vec::new();
    let d = bzip2::read::BzDecoder::new(input);
    match std::io::Read::read_to_end(&mut std::io::Read::take(d, limit), &mut out) {
        Ok(_) => (out, None),
        Err(e) => (out, Some(e.to_string())),
    }
}

/// The level of `bzip2::Compression::default()`, which the source of `bzip2`
/// 0.4 sets to 6.
#[verifier::external_body]
pub(crate) fn bzip2_default_level() -> (l: u32)
    ensures
        l == 6,
{
    bzip2::Compression::default().level()
}

} // verus!
