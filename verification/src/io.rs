//! Encoding and decoding of whole buffers in a chosen format, the compression
//! levels that each format gets, the cap on decompressed output, and the errors
//! of the library.

use vstd::prelude::*;
use crate::codec::{
    bounded_read, bzip2_decode, bzip2_decoded, bzip2_default_level, bzip2_encode, bzip2_encoded,
    gzip_decode, gzip_decoded, gzip_encode, gzip_encoded, xz_decode, xz_decoded, xz_encode,
    xz_encoded, zstd_decode, zstd_decoded, zstd_encode, zstd_encoded,
};
use crate::format::{detected, has_codec, name_of, Format};
use vstd::utf8::encode_utf8;

verus! {

/// What can go wrong when (de)compressing a file.
#[derive(Debug)]
pub enum Error {
    /// An I/O or codec failure, with its message.
    Io(String),
    /// The output path already exists and `force` was not given.
    OutputExists(Vec<u8>),
    /// The input starts with no known magic number.
    UnknownFormat,
    /// The format is recognized but has no codec.
    UnsupportedFormat(Format),
    /// Decompressed output went past the cap, which is given.
    MaxSizeExceeded(u64),
}

/// The decimal digits of `n` in ASCII, most significant first.
pub open spec fn decimal_digits(n: nat) -> Seq<u8>
    decreases n,
{
    if n < 10 {
        seq![(48 + n) as u8]
    } else {
        decimal_digits(n / 10).push((48 + n % 10) as u8)
    }
}

/// The bytes of characters that are all ASCII.
pub open spec fn ascii_bytes(s: Seq<char>) -> Seq<u8> {
    Seq::new(s.len(), |i: int| s[i] as u8)
}

/// The message of an error, in UTF-8: the I/O failure's own text, the path that
/// would be clobbered, the name of a format without a codec, or the cap that
/// the decompressed output went past.
pub open spec fn message_bytes(e: Error) -> Seq<u8> {
    match e {
        Error::Io(m) => encode_utf8("io: "@) + encode_utf8(m@),
        Error::OutputExists(p) => encode_utf8("refusing to clobber: "@) + p@,
        Error::UnknownFormat => encode_utf8("could not identify compression format"@),
        Error::UnsupportedFormat(f) => encode_utf8("no decompressor compiled in for "@)
            + ascii_bytes(name_of(f)),
        Error::MaxSizeExceeded(n) => encode_utf8("decompressed output exceeded --max-size ("@)
            + decimal_digits(n as nat) + encode_utf8(" bytes)"@),
    }
}

/// Appends the decimal digits of `n` to `out`.
fn push_decimal(n: u64, out: &mut Vec<u8>)
    ensures
        final(out)@ == old(out)@ + decimal_digits(n as nat),
    decreases n,
{
    if n >= 10 {
        push_decimal(n / 10, out);
    }
    out.push((48 + n % 10) as u8);
    assert(out@ =~= old(out)@ + decimal_digits(n as nat));
}

/// Appends `bytes` to `out`.
pub(crate) fn push_bytes(out: &mut Vec<u8>, bytes: &[u8])
    ensures
        final(out)@ == old(out)@ + bytes@,
{
    let mut tail = vstd::slice::slice_to_vec(bytes);
    out.append(&mut tail);
}

/// Appends the name of `f` to `out`, in ASCII.
pub(crate) fn push_name(out: &mut Vec<u8>, f: Format)
    ensures
        final(out)@ == old(out)@ + ascii_bytes(name_of(f)),
{
    let name = f.name();
    let mut i: usize = 0;
    while i < name.len()
        invariant
            i <= name@.len(),
            name@ == name_of(f),
            out@ == old(out)@ + ascii_bytes(name@).take(i as int),
        decreases name@.len() - i,
    {
        out.push(name[i] as u8);
        i = i + 1;
        assert(out@ =~= old(out)@ + ascii_bytes(name@).take(i as int));
    }
    assert(ascii_bytes(name@).take(i as int) =~= ascii_bytes(name@));
}

impl Error {
    /// The message shown to users for this error, as UTF-8 bytes (a path is
    /// given as its bytes).
    pub fn message(&self) -> (m: Vec<u8>)
        ensures
            m@ == message_bytes(*self),
    {
        let mut m: Vec<u8> = Vec::new();
        match self {
            Error::Io(e) => {
                push_bytes(&mut m, "io: ".as_bytes());
                push_bytes(&mut m, e.as_str().as_bytes());
            },
            Error::OutputExists(p) => {
                push_bytes(&mut m, "refusing to clobber: ".as_bytes());
                push_bytes(&mut m, p.as_slice());
            },
            Error::UnknownFormat => {
                push_bytes(&mut m, "could not identify compression format".as_bytes());
            },
            Error::UnsupportedFormat(f) => {
                push_bytes(&mut m, "no decompressor compiled in for ".as_bytes());
                push_name(&mut m, *f);
            },
            Error::MaxSizeExceeded(n) => {
                push_bytes(&mut m, "decompressed output exceeded --max-size (".as_bytes());
                push_decimal(*n, &mut m);
                push_bytes(&mut m, " bytes)".as_bytes());
            },
        }
        assert(m@ =~= message_bytes(*self));
        m
    }
}

/// How an operation treats its source and its destination.
#[derive(Debug, Default, Clone, Copy)]
pub struct Options {
    /// Don't remove the source file after a successful operation.
    pub keep: bool,
    /// Overwrite an existing destination instead of erroring.
    pub force: bool,
    /// Cap decompressed output; decompress paths abort past this many bytes.
    /// Ignored on compress.
    pub max_decompressed: Option<u64>,
}

/// `l` clamped to `lo..=hi`.
pub open spec fn clamped(l: i32, lo: int, hi: int) -> int {
    if l < lo {
        lo
    } else if l > hi {
        hi
    } else {
        l as int
    }
}

/// The zstd level: the one asked for, else 3.
pub open spec fn zstd_level(level: Option<i32>) -> i32 {
    match level {
        Some(l) => l,
        None => 3,
    }
}

/// The gzip and xz level: the one asked for clamped to 0..=9, else 6.
pub open spec fn deflate_level(level: Option<i32>) -> u32 {
    match level {
        Some(l) => clamped(l, 0, 9) as u32,
        None => 6,
    }
}

/// The bzip2 level: the one asked for clamped to 1..=9, else bzip2's default, 6.
pub open spec fn bzip2_level(level: Option<i32>) -> u32 {
    match level {
        Some(l) => clamped(l, 1, 9) as u32,
        None => 6,
    }
}

/// The compressed form of `input` in `fmt` at the level that `level` selects.
pub open spec fn encoded(fmt: Format, input: Seq<u8>, level: Option<i32>) -> Seq<u8> {
    match fmt {
        Format::Zstd => zstd_encoded(input, zstd_level(level)),
        Format::Gzip => gzip_encoded(input, deflate_level(level)),
        Format::Xz => xz_encoded(input, deflate_level(level)),
        Format::Bzip2 => bzip2_encoded(input, bzip2_level(level)),
        _ => Seq::empty(),
    }
}

/// What decoding `input` as `fmt` yields, or `None` where the decoder fails.
pub open spec fn decoded(fmt: Format, input: Seq<u8>) -> Option<Seq<u8>> {
    match fmt {
        Format::Zstd => zstd_decoded(input),
        Format::Gzip => gzip_decoded(input),
        Format::Xz => xz_decoded(input),
        Format::Bzip2 => bzip2_decoded(input),
        _ => None,
    }
}

/// The outcome of `encode(input, fmt, level)`: an unsupported format is refused;
/// otherwise the encoder's output.
pub open spec fn encode_outcome(
    fmt: Format,
    input: Seq<u8>,
    level: Option<i32>,
    r: Result<Vec<u8>, Error>,
) -> bool {
    if !has_codec(fmt) {
        r matches Err(Error::UnsupportedFormat(f)) && f == fmt
    } else {
        r matches Ok(v) && v@ == encoded(fmt, input, level)
    }
}

/// The outcome of `decode(input, fmt, max)`: an unsupported format is refused;
/// a valid stream gives its whole output, unless that output is longer than the
/// cap, which then gives `MaxSizeExceeded`; an invalid stream gives an I/O error
/// or, where the decoder got past the cap before failing, `MaxSizeExceeded`.
pub open spec fn decode_outcome(
    fmt: Format,
    input: Seq<u8>,
    max: Option<u64>,
    r: Result<Vec<u8>, Error>,
) -> bool {
    if !has_codec(fmt) {
        r matches Err(Error::UnsupportedFormat(f)) && f == fmt
    } else {
        match decoded(fmt, input) {
            Some(out) => match max {
                Some(l) => if out.len() > l {
                    r matches Err(Error::MaxSizeExceeded(m)) && m == l
                } else {
                    r matches Ok(v) && v@ == out
                },
                None => r matches Ok(v) && v@ == out,
            },
            None => match r {
                Ok(_) => false,
                Err(Error::Io(_)) => true,
                Err(Error::MaxSizeExceeded(m)) => max == Some(m),
                Err(_) => false,
            },
        }
    }
}

/// `l` clamped to `lo..=hi`, as a level.
fn clamp_level(l: i32, lo: i32, hi: i32) -> (r: u32)
    requires
        0 <= lo <= hi,
    ensures
        r == clamped(l, lo as int, hi as int),
{
    if l < lo {
        lo as u32
    } else if l > hi {
        hi as u32
    } else {
        l as u32
    }
}

/// Compresses `input` in format `fmt`. `level` selects the level: for zstd the
/// one given (default 3); for gzip and xz the one given clamped to 0..=9
/// (default 6); for bzip2 the one given clamped to 1..=9 (default bzip2's, 6).
/// Formats without a codec give `UnsupportedFormat`.
///
/// What comes out starts with the format's magic bytes, so that `detect` finds
/// the format again, and decoding it gives `input` back.
pub fn encode(input: &[u8], fmt: Format, level: Option<i32>) -> (r: Result<Vec<u8>, Error>)
    ensures
        encode_outcome(fmt, input@, level, r),
        r matches Ok(v) ==> decoded(fmt, v@) == Some(input@),
        r matches Ok(v) ==> detected(v@) == Some(fmt),
{
    let raw = match fmt {
        Format::Zstd => {
            let lvl = match level {
                Some(l) => l,
                None => 3,
            };
            zstd_encode(input, lvl)
        },
        Format::Gzip => {
            let lvl = match level {
                Some(l) => clamp_level(l, 0, 9),
                None => 6,
            };
            gzip_encode(input, lvl)
        },
        Format::Xz => {
            let lvl = match level {
                Some(l) => clamp_level(l, 0, 9),
                None => 6,
            };
            xz_encode(input, lvl)
        },
        Format::Bzip2 => {
            let lvl = match level {
                Some(l) => clamp_level(l, 1, 9),
                None => bzip2_default_level(),
            };
            bzip2_encode(input, lvl)
        },
        other => {
            return Err(Error::UnsupportedFormat(other));
        },
    };
    match raw {
        Ok(v) => {
            proof {
                crate::format::lemma_detected_iff_magic(v@, fmt);
            }
            Ok(v)
        },
        Err(m) => Err(Error::Io(m)),
    }
}

/// A sink for decompressed bytes that refuses any write past its byte budget,
/// and remembers that it did.
pub struct CappedWriter {
    inner: Vec<u8>,
    remaining: u64,
    tripped: bool,
}

/// A write went past the budget of a `CappedWriter`.
#[derive(Debug, Clone, Copy, PartialEq, Eq)]
pub struct BudgetExceeded;

/// The state of a `CappedWriter`: the bytes written, the budget left, and
/// whether a write went past the budget.
pub struct CapState {
    pub written: Seq<u8>,
    pub budget: nat,
    pub tripped: bool,
}

/// The state of a `CappedWriter` after writing `buf`: it is written whole if
/// it fits the budget, which it then lowers; otherwise nothing is written and
/// the writer trips.
pub open spec fn write_step(s: CapState, buf: Seq<u8>) -> CapState {
    if buf.len() > s.budget {
        CapState { tripped: true, ..s }
    } else {
        CapState { written: s.written + buf, budget: (s.budget - buf.len()) as nat, ..s }
    }
}

/// The state of a `CappedWriter` after writing each of `bufs` in turn.
pub open spec fn after_writes(s: CapState, bufs: Seq<Seq<u8>>) -> CapState
    decreases bufs.len(),
{
    if bufs.len() == 0 {
        s
    } else {
        write_step(after_writes(s, bufs.drop_last()), bufs.last())
    }
}

/// Over any writes, what was written and the budget left add up, the budget
/// only shrinks, and what was written stays in front.
proof fn lemma_writes_total(s: CapState, bufs: Seq<Seq<u8>>)
    ensures
        after_writes(s, bufs).written.len() + after_writes(s, bufs).budget == s.written.len() + s.budget,
        after_writes(s, bufs).budget <= s.budget,
        after_writes(s, bufs).written.take(s.written.len() as int) == s.written,
    decreases bufs.len(),
{
    if bufs.len() == 0 {
        assert(s.written.take(s.written.len() as int) =~= s.written);
    } else {
        let pre = bufs.drop_last();
        lemma_writes_total(s, pre);
        let mid = after_writes(s, pre);
        let n = s.written.len() as int;
        if bufs.last().len() <= mid.budget {
            assert((mid.written + bufs.last()).take(n) =~= mid.written.take(n));
        }
    }
}

/// Over any writes, the writer has tripped exactly when it had, or when some
/// write was given more bytes than remained then.
proof fn lemma_writes_trip(s: CapState, bufs: Seq<Seq<u8>>)
    ensures
        after_writes(s, bufs).tripped <==> (s.tripped || exists|i: int|
            0 <= i < bufs.len() && #[trigger] bufs[i].len() > after_writes(s, bufs.take(i)).budget),
    decreases bufs.len(),
{
    if bufs.len() > 0 {
        let pre = bufs.drop_last();
        lemma_writes_trip(s, pre);
        let k = bufs.len() - 1;
        assert(bufs.take(k) =~= pre);
        assert forall|i: int| 0 <= i < pre.len() implies bufs.take(i) =~= pre.take(i) && bufs[i] == pre[i] by {}
        if after_writes(s, pre).tripped && !s.tripped {
            let i = choose|i: int| 0 <= i < pre.len() && #[trigger] pre[i].len() > after_writes(s, pre.take(i)).budget;
            assert(bufs.take(i) =~= pre.take(i));
            assert(bufs[i].len() > after_writes(s, bufs.take(i)).budget);
        }
        if !after_writes(s, pre).tripped && !after_writes(s, bufs).tripped {
            assert forall|i: int| 0 <= i < bufs.len() implies !(#[trigger] bufs[i].len() > after_writes(s, bufs.take(i)).budget) by {
                if i < k {
                    assert(bufs.take(i) =~= pre.take(i));
                    assert(bufs[i] == pre[i]);
                }
            }
        }
    }
}

/// Law: over any writes to a `CappedWriter`, what reached the inner writer and
/// the budget left add up to the budget it had, so no more than the budget is
/// ever written; what was there stays in front; and it has tripped exactly when
/// it had, or when some write was given more bytes than remained then, after
/// which it stays tripped.
pub proof fn law_capped_writer_totals(s: CapState, bufs: Seq<Seq<u8>>)
    ensures
        after_writes(s, bufs).written.len() + after_writes(s, bufs).budget == s.written.len() + s.budget,
        after_writes(s, bufs).written.take(s.written.len() as int) == s.written,
        after_writes(s, bufs).tripped <==> (s.tripped || exists|i: int|
            0 <= i < bufs.len() && #[trigger] bufs[i].len() > after_writes(s, bufs.take(i)).budget),
        forall|i: int, j: int|
            0 <= i <= j <= bufs.len() && #[trigger] after_writes(s, bufs.take(i)).tripped ==> #[trigger] after_writes(
                s,
                bufs.take(j),
            ).tripped,
{
    lemma_writes_total(s, bufs);
    lemma_writes_trip(s, bufs);
    assert forall|i: int, j: int|
        0 <= i <= j <= bufs.len() && #[trigger] after_writes(s, bufs.take(i)).tripped implies #[trigger] after_writes(
            s,
            bufs.take(j),
        ).tripped by {
        let bi = bufs.take(i);
        let bj = bufs.take(j);
        lemma_writes_trip(s, bi);
        lemma_writes_trip(s, bj);
        if !s.tripped {
            let k = choose|k: int| 0 <= k < bi.len() && #[trigger] bi[k].len() > after_writes(s, bi.take(k)).budget;
            assert(bi.take(k) =~= bj.take(k));
            assert(bi[k] == bj[k]);
            assert(bj[k].len() > after_writes(s, bj.take(k)).budget);
        }
    }
}

impl CappedWriter {
    /// The bytes written so far.
    pub closed spec fn written(&self) -> Seq<u8> {
        self.inner@
    }

    /// How many more bytes the writer accepts.
    pub closed spec fn budget(&self) -> nat {
        self.remaining as nat
    }

    /// Whether a write went past the budget.
    pub closed spec fn has_tripped(&self) -> bool {
        self.tripped
    }

    /// What was written, the budget left, and whether a write went past it.
    pub open spec fn state(&self) -> CapState {
        CapState { written: self.written(), budget: self.budget(), tripped: self.has_tripped() }
    }

    /// A writer over `inner` that accepts `limit` more bytes.
    pub fn new(inner: Vec<u8>, limit: u64) -> (w: Self)
        ensures
            w.written() == inner@,
            w.budget() == limit,
            !w.has_tripped(),
    {
        CappedWriter { inner, remaining: limit, tripped: false }
    }

    /// Writes all of `buf` if it fits the budget; otherwise writes nothing,
    /// trips, and fails.
    pub fn write(&mut self, buf: &[u8]) -> (r: Result<usize, BudgetExceeded>)
        ensures
            final(self).state() == write_step(old(self).state(), buf@),
            buf@.len() > old(self).budget() ==> {
                &&& r == Err::<usize, BudgetExceeded>(BudgetExceeded)
                &&& final(self).has_tripped()
                &&& final(self).written() == old(self).written()
                &&& final(self).budget() == old(self).budget()
            },
            buf@.len() <= old(self).budget() ==> {
                &&& r == Ok::<usize, BudgetExceeded>(buf@.len() as usize)
                &&& final(self).has_tripped() == old(self).has_tripped()
                &&& final(self).written() == old(self).written() + buf@
                &&& final(self).budget() == old(self).budget() - buf@.len()
            },
    {
        if buf.len() as u64 > self.remaining {
            self.tripped = true;
            return Err(BudgetExceeded);
        }
        let mut i: usize = 0;
        while i < buf.len()
            invariant
                i <= buf@.len(),
                self.inner@ == old(self).inner@ + buf@.take(i as int),
                self.remaining == old(self).remaining,
                self.tripped == old(self).tripped,
            decreases buf@.len() - i,
        {
            self.inner.push(buf[i]);
            i = i + 1;
            assert(self.inner@ =~= old(self).inner@ + buf@.take(i as int));
        }
        assert(buf@.take(buf@.len() as int) =~= buf@);
        self.remaining = self.remaining - buf.len() as u64;
        Ok(buf.len())
    }

    /// Whether a write went past the budget.
    pub fn tripped(&self) -> (t: bool)
        ensures
            t == self.has_tripped(),
    {
        self.tripped
    }

    /// The bytes written.
    pub fn into_inner(self) -> (v: Vec<u8>)
        ensures
            v@ == self.written(),
    {
        self.inner
    }
}

/// What a decoder's bounded read (`bytes`, and the error that stopped it, if
/// any) becomes on its way to a writer: without a cap, the bytes, and the error
/// as an I/O error; with cap `l`, the bytes go through a `CappedWriter` of
/// budget `l`, so that past `l` bytes the first `l` were written and the writer
/// trips, which gives `MaxSizeExceeded(l)`.
pub fn settle_decode(bytes: Vec<u8>, failure: Option<String>, max: Option<u64>) -> (r: (
    Vec<u8>,
    Option<Error>,
))
    ensures
        match max {
            Some(l) if bytes@.len() > l => {
                &&& r.0@ == bytes@.take(l as int)
                &&& r.1 matches Some(Error::MaxSizeExceeded(m)) && m == l
            },
            _ => r.0@ == bytes@ && match failure {
                Some(m) => r.1 matches Some(Error::Io(n)) && n == m,
                None => r.1 is None,
            },
        },
{
    let settled = match failure {
        Some(m) => Some(Error::Io(m)),
        None => None,
    };
    match max {
        None => (bytes, settled),
        Some(limit) => {
            let mut capped = CappedWriter::new(Vec::new(), limit);
            if bytes.len() as u64 <= limit {
                let _ = capped.write(bytes.as_slice());
            } else {
                let cut = limit as usize;
                let head = vstd::slice::slice_subrange(bytes.as_slice(), 0, cut);
                let tail = vstd::slice::slice_subrange(bytes.as_slice(), cut, bytes.len());
                let _ = capped.write(head);
                let _ = capped.write(tail);
            }
            let tripped = capped.tripped();
            let out = capped.into_inner();
            if tripped {
                (out, Some(Error::MaxSizeExceeded(limit)))
            } else {
                assert(out@ =~= bytes@);
                (out, settled)
            }
        },
    }
}

/// The outcome of decompressing `input` as `fmt` to a writer under the cap
/// `max`, as what is written (`w`) and the error that ends it, if any: an
/// unsupported format writes nothing and is refused; a valid stream writes its
/// whole output, or, where that is longer than the cap, its first `l` bytes and
/// ends with `MaxSizeExceeded(l)`; an invalid stream ends with an I/O error
/// having written no more than the cap, or, where the decoder got past the cap
/// before failing, with `MaxSizeExceeded` having written exactly the cap.
pub open spec fn stream_outcome(
    fmt: Format,
    input: Seq<u8>,
    max: Option<u64>,
    w: Seq<u8>,
    err: Option<Error>,
) -> bool {
    if !has_codec(fmt) {
        &&& w.len() == 0
        &&& err matches Some(Error::UnsupportedFormat(f)) && f == fmt
    } else {
        match decoded(fmt, input) {
            Some(out) => match max {
                Some(l) => if out.len() > l {
                    &&& w == out.take(l as int)
                    &&& err matches Some(Error::MaxSizeExceeded(m)) && m == l
                } else {
                    w == out && err is None
                },
                None => w == out && err is None,
            },
            None => match err {
                Some(Error::Io(_)) => max matches Some(l) ==> w.len() <= l,
                Some(Error::MaxSizeExceeded(m)) => max == Some(m) && w.len() == m,
                _ => false,
            },
        }
    }
}

/// Decompresses `input` as `fmt` for a writer, reading no more than one byte
/// past the cap `max` from the decoder: what is written, and the error that
/// ends it, if any. See `stream_outcome`.
pub fn decode_stream(input: &[u8], fmt: Format, max: Option<u64>) -> (r: (Vec<u8>, Option<Error>))
    ensures
        stream_outcome(fmt, input@, max, r.0@, r.1),
{
    if !fmt.has_codec() {
        return (Vec::new(), Some(Error::UnsupportedFormat(fmt)));
    }
    let bound: u64 = match max {
        None => u64::MAX,
        Some(l) => if l < u64::MAX {
            l + 1
        } else {
            l
        },
    };
    let (bytes, failure) = match fmt {
        Format::Zstd => zstd_decode(input, bound),
        Format::Gzip => gzip_decode(input, bound),
        Format::Xz => xz_decode(input, bound),
        _ => bzip2_decode(input, bound),
    };
    proof {
        assert(bounded_read(decoded(fmt, input@), bound, (bytes, failure)));
        assert(isize::MAX < u64::MAX);
        if let Some(out) = decoded(fmt, input@) {
            if let Some(l) = max {
                if out.len() > l {
                    assert(bytes@.take(l as int) =~= out.take(l as int));
                }
            }
        }
    }
    settle_decode(bytes, failure, max)
}

/// Decompresses `input` as `fmt`, reading no more than one byte past the cap
/// `max` from the decoder. See `decode_outcome` for what comes out.
pub fn decode(input: &[u8], fmt: Format, max: Option<u64>) -> (r: Result<Vec<u8>, Error>)
    ensures
        decode_outcome(fmt, input@, max, r),
{
    let (bytes, failure) = decode_stream(input, fmt, max);
    match failure {
        None => Ok(bytes),
        Some(e) => Err(e),
    }
}

/// The format announced by the first bytes of a file, or `UnknownFormat`.
pub fn detect_format(head: &[u8]) -> (r: Result<Format, Error>)
    ensures
        match detected(head@) {
            Some(f) => r matches Ok(g) && g == f,
            None => r matches Err(Error::UnknownFormat),
        },
{
    match Format::detect(head) {
        Some(f) => Ok(f),
        None => Err(Error::UnknownFormat),
    }
}

/// Law: decompressing a stream gives back the bytes that were compressed into
/// it, whenever they fit the cap.
pub proof fn law_roundtrip(
    fmt: Format,
    input: Seq<u8>,
    compressed: Seq<u8>,
    max: Option<u64>,
    r: Result<Vec<u8>, Error>,
)
    requires
        has_codec(fmt),
        decoded(fmt, compressed) == Some(input),
        decode_outcome(fmt, compressed, max, r),
        max matches Some(l) ==> input.len() <= l,
    ensures
        r matches Ok(v) && v@ == input,
{
}

/// Law: without a cap, decoding gives the decoder's whole output, or an I/O
/// error where the stream is invalid.
pub proof fn law_uncapped_decode(fmt: Format, input: Seq<u8>, r: Result<Vec<u8>, Error>)
    requires
        has_codec(fmt),
        decode_outcome(fmt, input, None, r),
    ensures
        match decoded(fmt, input) {
            Some(out) => r matches Ok(v) && v@ == out,
            None => r matches Err(Error::Io(_)),
        },
{
}

/// Law: a cap that the output fits changes nothing: decoding under it gives
/// what decoding without a cap gives.
pub proof fn law_fitting_cap_changes_nothing(
    fmt: Format,
    input: Seq<u8>,
    l: u64,
    capped: Result<Vec<u8>, Error>,
    uncapped: Result<Vec<u8>, Error>,
)
    requires
        has_codec(fmt),
        decoded(fmt, input) matches Some(out) && out.len() <= l,
        decode_outcome(fmt, input, Some(l), capped),
        decode_outcome(fmt, input, None, uncapped),
    ensures
        capped matches Ok(a) && uncapped matches Ok(b) && a@ == b@,
{
}

/// Law: levels out of range are clamped, and no level is the default: gzip
/// and xz take 0..=9 and default to 6, bzip2 takes 1..=9 and defaults to 6,
/// zstd defaults to 3.
pub proof fn law_levels_are_clamped(input: Seq<u8>, l: i32)
    ensures
        encoded(Format::Gzip, input, Some(l)) == encoded(
            Format::Gzip,
            input,
            Some(clamped(l, 0, 9) as i32),
        ),
        encoded(Format::Xz, input, Some(l)) == encoded(Format::Xz, input, Some(clamped(l, 0, 9) as i32)),
        encoded(Format::Bzip2, input, Some(l)) == encoded(
            Format::Bzip2,
            input,
            Some(clamped(l, 1, 9) as i32),
        ),
        encoded(Format::Zstd, input, None) == encoded(Format::Zstd, input, Some(3)),
        encoded(Format::Gzip, input, None) == encoded(Format::Gzip, input, Some(6)),
        encoded(Format::Xz, input, None) == encoded(Format::Xz, input, Some(6)),
        encoded(Format::Bzip2, input, None) == encoded(Format::Bzip2, input, Some(6)),
{
}

} // verus!
